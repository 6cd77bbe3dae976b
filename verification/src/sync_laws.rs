//! What syncing is for: what was changed here is committed and sent, what was
//! changed there is brought in, and a step says it worked exactly when git did the
//! thing it is for.

use crate::git::{blank, full_lines, headline, words, Answer, NextView, Outcome};
use crate::sync::{
    cloning, committing, counts, fetching, initializing, names_a_remote, pushing, taking_status,
    AskingView,
};
use crate::text::{join, lemma_split_join, lemma_split_one, split};
use vstd::prelude::*;

verus! {

// ---- command lines ----

pub open spec fn is_repo_line() -> Seq<Seq<char>> {
    seq!["rev-parse"@, "--git-dir"@]
}

pub open spec fn add_line() -> Seq<Seq<char>> {
    seq!["add"@, "-A"@]
}

pub open spec fn diff_line() -> Seq<Seq<char>> {
    seq!["diff"@, "--cached"@, "--quiet"@]
}

pub open spec fn commit_line(message: Seq<char>) -> Seq<Seq<char>> {
    seq!["commit"@, "-m"@, message]
}

pub open spec fn remote_line() -> Seq<Seq<char>> {
    seq!["remote"@]
}

pub open spec fn counts_line() -> Seq<Seq<char>> {
    seq!["rev-list"@, "--left-right"@, "--count"@, "@{u}...HEAD"@]
}

pub open spec fn upstream_line() -> Seq<Seq<char>> {
    seq!["rev-parse"@, "--abbrev-ref"@, "@{u}"@]
}

pub open spec fn push_line() -> Seq<Seq<char>> {
    seq!["push"@, "--quiet"@]
}

/// The first push of a branch, which sets where later ones go.
pub open spec fn first_push_line() -> Seq<Seq<char>> {
    seq!["push"@, "--quiet"@, "-u"@, "origin"@, "HEAD"@]
}

pub proof fn lemma_two(line: Seq<char>, a: Seq<char>, b: Seq<char>)
    requires
        line == a + seq![' '] + b,
        !a.contains(' '),
        !b.contains(' '),
    ensures
        split(line, ' ') == seq![a, b],
{
    let w = seq![a, b];
    assert(w.drop_last() =~= seq![a]);
    reveal_with_fuel(join, 3);
    assert(join(w, ' ') =~= line);
    lemma_split_join(w, ' ');
}

pub proof fn lemma_more(line: Seq<char>, before: Seq<char>, words: Seq<Seq<char>>, b: Seq<char>)
    requires
        split(before, ' ') == words,
        line == before + seq![' '] + b,
        !b.contains(' '),
    ensures
        split(line, ' ') == words.push(b),
{
    crate::text::lemma_split_tail(before, b, ' ');
    assert(before.push(' ') + b =~= line);
}

pub proof fn lemma_short_lines()
    ensures
        split("rev-parse --git-dir"@, ' ') == is_repo_line(),
        split("add -A"@, ' ') == add_line(),
        split("remote"@, ' ') == remote_line(),
        split("push --quiet"@, ' ') == push_line(),
        split("commit -m"@, ' ') == seq!["commit"@, "-m"@],
{
    reveal_strlit("rev-parse --git-dir");
    reveal_strlit("rev-parse");
    reveal_strlit("--git-dir");
    reveal_strlit("add -A");
    reveal_strlit("add");
    reveal_strlit("-A");
    reveal_strlit("remote");
    reveal_strlit("push --quiet");
    reveal_strlit("push");
    reveal_strlit("--quiet");
    reveal_strlit("commit -m");
    reveal_strlit("commit");
    reveal_strlit("-m");
    assert("rev-parse --git-dir"@ =~= "rev-parse"@ + seq![' '] + "--git-dir"@);
    lemma_two("rev-parse --git-dir"@, "rev-parse"@, "--git-dir"@);
    assert("add -A"@ =~= "add"@ + seq![' '] + "-A"@);
    lemma_two("add -A"@, "add"@, "-A"@);
    assert("push --quiet"@ =~= "push"@ + seq![' '] + "--quiet"@);
    lemma_two("push --quiet"@, "push"@, "--quiet"@);
    assert("commit -m"@ =~= "commit"@ + seq![' '] + "-m"@);
    lemma_two("commit -m"@, "commit"@, "-m"@);
    lemma_split_one("remote"@, ' ');
}

proof fn lemma_diff_line()
    ensures
        split("diff --cached --quiet"@, ' ') == diff_line(),
{
    reveal_strlit("diff --cached --quiet");
    reveal_strlit("diff");
    reveal_strlit("--cached");
    reveal_strlit("--quiet");
    let two = "diff"@ + seq![' '] + "--cached"@;
    lemma_two(two, "diff"@, "--cached"@);
    assert("diff --cached --quiet"@ =~= two + seq![' '] + "--quiet"@);
    lemma_more("diff --cached --quiet"@, two, seq!["diff"@, "--cached"@], "--quiet"@);
    assert(diff_line() =~= seq!["diff"@, "--cached"@].push("--quiet"@));
}

pub proof fn lemma_upstream_line()
    ensures
        split("rev-parse --abbrev-ref @{u}"@, ' ') == upstream_line(),
{
    reveal_strlit("rev-parse --abbrev-ref @{u}");
    reveal_strlit("rev-parse");
    reveal_strlit("--abbrev-ref");
    reveal_strlit("@{u}");
    let two = "rev-parse"@ + seq![' '] + "--abbrev-ref"@;
    lemma_two(two, "rev-parse"@, "--abbrev-ref"@);
    assert("rev-parse --abbrev-ref @{u}"@ =~= two + seq![' '] + "@{u}"@);
    lemma_more("rev-parse --abbrev-ref @{u}"@, two, seq!["rev-parse"@, "--abbrev-ref"@], "@{u}"@);
    assert(upstream_line() =~= seq!["rev-parse"@, "--abbrev-ref"@].push("@{u}"@));
}

pub proof fn lemma_counts_line()
    ensures
        split("rev-list --left-right --count @{u}...HEAD"@, ' ') == counts_line(),
{
    reveal_strlit("rev-list --left-right --count @{u}...HEAD");
    reveal_strlit("rev-list");
    reveal_strlit("--left-right");
    reveal_strlit("--count");
    reveal_strlit("@{u}...HEAD");
    let two = "rev-list"@ + seq![' '] + "--left-right"@;
    lemma_two(two, "rev-list"@, "--left-right"@);
    let three = two + seq![' '] + "--count"@;
    let words = seq!["rev-list"@, "--left-right"@].push("--count"@);
    lemma_more(three, two, seq!["rev-list"@, "--left-right"@], "--count"@);
    assert("rev-list --left-right --count @{u}...HEAD"@ =~= three + seq![' '] + "@{u}...HEAD"@);
    lemma_more("rev-list --left-right --count @{u}...HEAD"@, three, words, "@{u}...HEAD"@);
    assert(counts_line() =~= words.push("@{u}...HEAD"@));
}

proof fn lemma_first_push_line()
    ensures
        split("push --quiet -u origin HEAD"@, ' ') == first_push_line(),
{
    reveal_strlit("push --quiet -u origin HEAD");
    reveal_strlit("push");
    reveal_strlit("--quiet");
    reveal_strlit("-u");
    reveal_strlit("origin");
    reveal_strlit("HEAD");
    let two = "push"@ + seq![' '] + "--quiet"@;
    lemma_two(two, "push"@, "--quiet"@);
    let three = two + seq![' '] + "-u"@;
    let w3 = seq!["push"@, "--quiet"@].push("-u"@);
    lemma_more(three, two, seq!["push"@, "--quiet"@], "-u"@);
    let four = three + seq![' '] + "origin"@;
    let w4 = w3.push("origin"@);
    lemma_more(four, three, w3, "origin"@);
    assert("push --quiet -u origin HEAD"@ =~= four + seq![' '] + "HEAD"@);
    lemma_more("push --quiet -u origin HEAD"@, four, w4, "HEAD"@);
    assert(first_push_line() =~= w4.push("HEAD"@));
}

/// What tells the command lines apart: how many words there are, and how long the
/// first is.
spec fn mark(line: Seq<Seq<char>>) -> nat {
    100 * line.len() + line[0].len()
}

proof fn lemma_lines_apart(message: Seq<char>)
    ensures
        mark(is_repo_line()) == 209,
        mark(add_line()) == 203,
        mark(push_line()) == 204,
        mark(diff_line()) == 304,
        mark(commit_line(message)) == 306,
        mark(upstream_line()) == 309,
        mark(remote_line()) == 106,
        mark(counts_line()) == 408,
        mark(first_push_line()) == 504,
{
    reveal_strlit("add");
    reveal_strlit("push");
    reveal_strlit("diff");
    reveal_strlit("commit");
    reveal_strlit("remote");
    reveal_strlit("rev-list");
    reveal_strlit("rev-parse");
}

// ---- pushing ----

/// What a push asked for once it had the first `i` of the answers.
#[verifier::opaque]
pub open spec fn push_asked(message: Seq<char>, a: Seq<Answer>, i: int) -> NextView {
    pushing(message, a.take(i))
}

/// Everything the answers are to was asked: a push that is over is not answered.
pub open spec fn push_heard(message: Seq<char>, a: Seq<Answer>) -> bool {
    forall|i: int| 0 <= i < a.len() ==> !(#[trigger] push_asked(message, a, i) is Finish)
}

/// A command that sends commits to the remote.
pub open spec fn sends(n: NextView) -> bool {
    n == NextView::Run(push_line()) || n == NextView::Run(first_push_line())
}

/// What is asked when, as the answers lead.
proof fn lemma_push_course(message: Seq<char>, a: Seq<Answer>)
    requires
        push_heard(message, a),
    ensures
        ({
            let staged = a[2].ran && !a[2].ok;
            &&& a.len() <= 7
            &&& a.len() > 0 ==> push_asked(message, a, 0) == NextView::Run(is_repo_line())
            &&& a.len() > 1 ==> push_asked(message, a, 1) == NextView::Run(add_line()) && a[0].ok
            &&& a.len() > 2 ==> push_asked(message, a, 2) == NextView::Run(diff_line()) && a[1].ran
                && a[1].ok
            &&& a.len() > 3 ==> push_asked(message, a, 3) == NextView::Run(
                if staged {
                    commit_line(message)
                } else {
                    remote_line()
                },
            )
            &&& a.len() > 4 ==> push_asked(message, a, 4) == NextView::Run(
                if staged {
                    remote_line()
                } else {
                    counts_line()
                },
            )
            &&& a.len() > 4 && staged ==> a[3].ran && a[3].ok
            &&& a.len() > 4 && !staged ==> names_a_remote(a[3])
            &&& a.len() > 5 ==> push_asked(message, a, 5) == NextView::Run(upstream_line())
            &&& a.len() > 5 && staged ==> names_a_remote(a[4])
            &&& a.len() > 5 && !staged ==> !(counts(a[4]) matches Some((_, ahead)) && ahead == 0)
            &&& a.len() > 6 ==> push_asked(message, a, 6) == NextView::Run(
                if a[5].ok {
                    push_line()
                } else {
                    first_push_line()
                },
            )
        }),
{
    lemma_short_lines();
    lemma_diff_line();
    lemma_upstream_line();
    lemma_counts_line();
    lemma_first_push_line();
    assert(seq!["commit"@, "-m"@].push(message) =~= commit_line(message));
    lemma_push_first(message, a);
    lemma_push_last(message, a);
}

proof fn lemma_push_first(message: Seq<char>, a: Seq<Answer>)
    requires
        push_heard(message, a),
    ensures
        ({
            let staged = a[2].ran && !a[2].ok;
            &&& a.len() > 0 ==> push_asked(message, a, 0) == crate::git::asks(
                "rev-parse --git-dir"@,
            )
            &&& a.len() > 1 ==> push_asked(message, a, 1) == crate::git::asks("add -A"@) && a[0].ok
            &&& a.len() > 2 ==> push_asked(message, a, 2) == crate::git::asks(
                "diff --cached --quiet"@,
            ) && a[1].ran && a[1].ok
            &&& a.len() > 3 ==> push_asked(message, a, 3) == (if staged {
                crate::git::asks_of("commit -m"@, message)
            } else {
                crate::git::asks("remote"@)
            })
        }),
{
    reveal(push_asked);
    assert forall|i: int, k: int| 0 <= k < i <= a.len() implies #[trigger] a.take(i)[k] == a[k] by {
    }
    if a.len() > 0 {
        assert(!(push_asked(message, a, 0) is Finish));
    }
    if a.len() > 1 {
        assert(!(push_asked(message, a, 1) is Finish));
        assert(a.take(1)[0] == a[0]);
    }
    if a.len() > 2 {
        assert(!(push_asked(message, a, 2) is Finish));
        assert(a.take(2)[0] == a[0] && a.take(2)[1] == a[1]);
    }
    if a.len() > 3 {
        assert(!(push_asked(message, a, 3) is Finish));
        assert(a.take(3)[0] == a[0] && a.take(3)[1] == a[1] && a.take(3)[2] == a[2]);
    }
}

proof fn lemma_push_last(message: Seq<char>, a: Seq<Answer>)
    requires
        push_heard(message, a),
    ensures
        ({
            let staged = a[2].ran && !a[2].ok;
            &&& a.len() <= 7
            &&& a.len() > 4 ==> push_asked(message, a, 4) == (if staged {
                crate::git::asks("remote"@)
            } else {
                crate::git::asks("rev-list --left-right --count @{u}...HEAD"@)
            })
            &&& a.len() > 4 && staged ==> a[3].ran && a[3].ok
            &&& a.len() > 4 && !staged ==> names_a_remote(a[3])
            &&& a.len() > 5 ==> push_asked(message, a, 5) == crate::git::asks(
                "rev-parse --abbrev-ref @{u}"@,
            )
            &&& a.len() > 5 && staged ==> names_a_remote(a[4])
            &&& a.len() > 5 && !staged ==> !(counts(a[4]) matches Some((_, ahead)) && ahead == 0)
            &&& a.len() > 6 ==> push_asked(message, a, 6) == (if a[5].ok {
                crate::git::asks("push --quiet"@)
            } else {
                crate::git::asks("push --quiet -u origin HEAD"@)
            })
        }),
{
    reveal(push_asked);
    lemma_push_first(message, a);
    assert forall|i: int, k: int| 0 <= k < i <= a.len() implies #[trigger] a.take(i)[k] == a[k] by {
    }
    if a.len() > 4 {
        let b = a.take(4);
        assert(!(push_asked(message, a, 4) is Finish));
        assert(b[0] == a[0] && b[1] == a[1] && b[2] == a[2] && b[3] == a[3]);
    }
    if a.len() > 5 {
        let b = a.take(5);
        assert(!(push_asked(message, a, 5) is Finish));
        assert(b[0] == a[0] && b[1] == a[1] && b[2] == a[2] && b[3] == a[3] && b[4] == a[4]);
    }
    if a.len() > 6 {
        let b = a.take(6);
        assert(!(push_asked(message, a, 6) is Finish));
        assert(b[0] == a[0] && b[1] == a[1] && b[2] == a[2] && b[3] == a[3] && b[4] == a[4] && b[5]
            == a[5]);
    }
    if a.len() > 7 {
        let b = a.take(7);
        assert(!(push_asked(message, a, 7) is Finish));
        assert(b[0] == a[0] && b[1] == a[1] && b[2] == a[2] && b[3] == a[3] && b[4] == a[4] && b[5]
            == a[5] && b[6] == a[6]);
    }
}

/// A push has worked exactly when its last question was a push and git took it.
pub proof fn law_a_push_worked_when_git_pushed(message: Seq<char>, a: Seq<Answer>)
    requires
        push_heard(message, a),
    ensures
        pushing(message, a) is Finish && (pushing(message, a)->Finish_0 is Done) <==> a.len() > 0
            && sends(push_asked(message, a, a.len() - 1)) && a.last().ok,
{
    lemma_push_course(message, a);
    lemma_lines_apart(message);
    let n = a.len() as int;
    assert(a.take(n) =~= a);
}

/// The `i`th answer says that something waits to be sent: that a commit was made,
/// or that commits are ahead of the other side.
pub open spec fn waits_to_be_sent(message: Seq<char>, a: Seq<Answer>, i: int) -> bool {
    ||| push_asked(message, a, i) == NextView::Run(commit_line(message)) && a[i].ok
    ||| push_asked(message, a, i) == NextView::Run(counts_line()) && (counts(a[i]) matches Some(
        (_, ahead),
    ) && ahead > 0)
}

/// What is waiting is sent. Once a push has made a commit, or has been told that
/// commits are ahead of the other side, and there is a remote to send them to, it
/// does not end before git was asked to push.
pub proof fn law_a_push_sends_what_is_waiting(message: Seq<char>, a: Seq<Answer>, i: int, j: int)
    requires
        push_heard(message, a),
        pushing(message, a) is Finish,
        0 <= i < a.len(),
        0 <= j < a.len(),
        waits_to_be_sent(message, a, i),
        push_asked(message, a, j) == NextView::Run(remote_line()),
        names_a_remote(a[j]),
    ensures
        exists|k: int| 0 <= k < a.len() && sends(#[trigger] push_asked(message, a, k)),
{
    lemma_push_course(message, a);
    lemma_lines_apart(message);
    assert(a.take(a.len() as int) =~= a);
    if a.len() > 6 {
        assert(sends(push_asked(message, a, 6)));
    }
}

/// Whatever is staged is committed, under the message given, before anything is
/// asked of the remote; and it is staged first, all of it.
pub proof fn law_a_push_commits_what_is_staged(message: Seq<char>, a: Seq<Answer>, i: int)
    requires
        push_heard(message, a),
        0 <= i < a.len(),
        push_asked(message, a, i) == NextView::Run(diff_line()),
    ensures
        i == 2,
        push_asked(message, a, 1) == NextView::Run(add_line()),
        a[i].ran && !a[i].ok && a.len() > 3 ==> push_asked(message, a, 3) == NextView::Run(
            commit_line(message),
        ),
        a[i].ran && !a[i].ok && a.len() == 3 ==> pushing(message, a) == NextView::Run(
            commit_line(message),
        ),
        !(a[i].ran && !a[i].ok) ==> forall|k: int|
            0 <= k < a.len() ==> #[trigger] push_asked(message, a, k) != NextView::Run(
                commit_line(message),
            ),
{
    lemma_push_course(message, a);
    lemma_lines_apart(message);
    assert(a.take(a.len() as int) =~= a);
    lemma_short_lines();
    assert(seq!["commit"@, "-m"@].push(message) =~= commit_line(message));
}

/// A branch with an upstream is pushed to it; the first push of one without sets
/// it up. Nothing else is ever sent, and nothing is ever forced.
pub proof fn law_where_a_push_goes(message: Seq<char>, a: Seq<Answer>, i: int)
    requires
        push_heard(message, a),
        0 <= i < a.len(),
    ensures
        push_asked(message, a, i) == NextView::Run(push_line()) ==> i > 0 && push_asked(
            message,
            a,
            i - 1,
        ) == NextView::Run(upstream_line()) && a[i - 1].ok,
        push_asked(message, a, i) == NextView::Run(first_push_line()) ==> i > 0 && push_asked(
            message,
            a,
            i - 1,
        ) == NextView::Run(upstream_line()) && !a[i - 1].ok,
        ({
            let n = push_asked(message, a, i);
            ||| n == NextView::Run(is_repo_line())
            ||| n == NextView::Run(add_line())
            ||| n == NextView::Run(diff_line())
            ||| n == NextView::Run(commit_line(message))
            ||| n == NextView::Run(remote_line())
            ||| n == NextView::Run(counts_line())
            ||| n == NextView::Run(upstream_line())
            ||| sends(n)
        }),
{
    lemma_push_course(message, a);
    lemma_lines_apart(message);
}

/// A push that git refuses stops and says why; and one with nothing staged and
/// nothing ahead ends without sending anything.
pub proof fn law_how_else_a_push_ends(message: Seq<char>, a: Seq<Answer>)
    requires
        push_heard(message, a),
        a.len() > 0,
    ensures
        sends(push_asked(message, a, a.len() - 1)) && a.last().ran && !a.last().ok ==> pushing(
            message,
            a,
        ) == NextView::Finish(Outcome::Stopped("push failed: "@ + headline(a.last().err))),
        push_asked(message, a, a.len() - 1) == NextView::Run(commit_line(message)) && a.last().ran
            && !a.last().ok ==> pushing(message, a) is Finish && pushing(message, a)->Finish_0
            is Stopped,
        push_asked(message, a, a.len() - 1) == NextView::Run(counts_line()) && (counts(
            a.last(),
        ) matches Some((_, ahead)) && ahead == 0) ==> pushing(message, a) == NextView::Finish(
            Outcome::Idle("nothing to sync"@),
        ),
        push_asked(message, a, a.len() - 1) == NextView::Run(remote_line()) && !names_a_remote(
            a.last(),
        ) ==> pushing(message, a) is Finish && pushing(message, a)->Finish_0 is Idle,
        push_asked(message, a, a.len() - 1) == NextView::Run(is_repo_line()) && !a.last().ok
            ==> pushing(message, a) is Finish && pushing(message, a)->Finish_0 is Idle,
        pushing(message, a) is Finish && (pushing(message, a)->Finish_0 is Stopped) ==> !a.last().ok,
{
    lemma_push_course(message, a);
    lemma_lines_apart(message);
    assert(a.take(a.len() as int) =~= a);
}

/// What a push that worked says: whether it committed, too.
pub proof fn law_what_a_push_says(message: Seq<char>, a: Seq<Answer>)
    requires
        push_heard(message, a),
        a.len() > 3,
        pushing(message, a) is Finish,
        pushing(message, a)->Finish_0 is Done,
    ensures
        pushing(message, a) == NextView::Finish(
            Outcome::Done(
                if push_asked(message, a, 3) == NextView::Run(commit_line(message)) {
                    "committed and pushed"@
                } else {
                    "pushed"@
                },
            ),
        ),
{
    lemma_push_course(message, a);
    lemma_lines_apart(message);
}

// ---- committing ----

/// What a commit asked for once it had the first `i` of the answers.
pub open spec fn commit_asked(message: Seq<char>, a: Seq<Answer>, i: int) -> NextView {
    committing(message, a.take(i))
}

pub open spec fn commit_heard(message: Seq<char>, a: Seq<Answer>) -> bool {
    forall|i: int| 0 <= i < a.len() ==> !(#[trigger] commit_asked(message, a, i) is Finish)
}

/// A checkpoint has worked exactly when its last question was a commit under the
/// message given and git made it. It asks for one exactly when something is staged,
/// which everything that changed is; and it never asks for anything to be sent.
pub proof fn law_a_commit_worked_when_git_committed(message: Seq<char>, a: Seq<Answer>)
    requires
        commit_heard(message, a),
    ensures
        ({
            let n = a.len() as int;
            &&& n <= 4
            &&& committing(message, a) is Finish && (committing(message, a)->Finish_0 is Done)
                <==> n > 0 && commit_asked(message, a, n - 1) == NextView::Run(commit_line(message))
                && a.last().ran && a.last().ok
            &&& n > 0 ==> commit_asked(message, a, 0) == NextView::Run(is_repo_line())
            &&& n > 1 ==> commit_asked(message, a, 1) == NextView::Run(add_line())
            &&& n > 2 ==> commit_asked(message, a, 2) == NextView::Run(diff_line())
            &&& n > 3 ==> commit_asked(message, a, 3) == NextView::Run(commit_line(message))
            &&& n == 3 && a[2].ran && !a[2].ok ==> committing(message, a) == NextView::Run(
                commit_line(message),
            )
            &&& n == 3 && !(a[2].ran && !a[2].ok) ==> committing(message, a) == NextView::Finish(
                Outcome::Idle("nothing to commit"@),
            )
        }),
{
    lemma_short_lines();
    lemma_diff_line();
    lemma_lines_apart(message);
    assert(seq!["commit"@, "-m"@].push(message) =~= commit_line(message));
    assert forall|i: int, k: int| 0 <= k < i <= a.len() implies #[trigger] a.take(i)[k] == a[k] by {
    }
    assert(a.take(a.len() as int) =~= a);
    if a.len() > 0 {
        assert(!(commit_asked(message, a, 0) is Finish));
    }
    if a.len() > 1 {
        assert(!(commit_asked(message, a, 1) is Finish));
        assert(a.take(1)[0] == a[0]);
    }
    if a.len() > 2 {
        assert(!(commit_asked(message, a, 2) is Finish));
        assert(a.take(2)[0] == a[0] && a.take(2)[1] == a[1]);
    }
    if a.len() > 3 {
        let b = a.take(3);
        assert(!(commit_asked(message, a, 3) is Finish));
        assert(b[0] == a[0] && b[1] == a[1] && b[2] == a[2]);
    }
    if a.len() > 4 {
        let b = a.take(4);
        assert(!(commit_asked(message, a, 4) is Finish));
        assert(b[0] == a[0] && b[1] == a[1] && b[2] == a[2] && b[3] == a[3]);
    }
}

// ---- fetching, setting up, cloning ----

pub open spec fn fetch_asked(a: Seq<Answer>, i: int) -> NextView {
    fetching(a.take(i))
}

pub open spec fn fetch_heard(a: Seq<Answer>) -> bool {
    forall|i: int| 0 <= i < a.len() ==> !(#[trigger] fetch_asked(a, i) is Finish)
}

pub open spec fn fetch_line() -> Seq<Seq<char>> {
    seq!["fetch"@, "--quiet"@]
}

/// A fetch has worked exactly when git was asked to fetch and did. It is only asked
/// where there is a repo with a remote, it changes nothing here, and whatever else
/// comes back is no reason to stop.
pub proof fn law_a_fetch_worked_when_git_fetched(a: Seq<Answer>)
    requires
        fetch_heard(a),
    ensures
        ({
            let n = a.len() as int;
            &&& n <= 3
            &&& n > 0 ==> fetch_asked(a, 0) == NextView::Run(is_repo_line())
            &&& n > 1 ==> fetch_asked(a, 1) == NextView::Run(remote_line()) && a[0].ok
            &&& n > 2 ==> fetch_asked(a, 2) == NextView::Run(fetch_line()) && names_a_remote(a[1])
            &&& n == 2 && names_a_remote(a[1]) ==> fetching(a) == NextView::Run(fetch_line())
            &&& fetching(a) is Finish && (fetching(a)->Finish_0 is Done) <==> n == 3 && a[2].ok
            &&& fetching(a) is Finish ==> !(fetching(a)->Finish_0 is Stopped)
        }),
{
    lemma_short_lines();
    lemma_fetch_line();
    assert forall|i: int, k: int| 0 <= k < i <= a.len() implies #[trigger] a.take(i)[k] == a[k] by {
    }
    assert(a.take(a.len() as int) =~= a);
    if a.len() > 0 {
        assert(!(fetch_asked(a, 0) is Finish));
    }
    if a.len() > 1 {
        assert(!(fetch_asked(a, 1) is Finish));
        assert(a.take(1)[0] == a[0]);
    }
    if a.len() > 2 {
        assert(!(fetch_asked(a, 2) is Finish));
        assert(a.take(2)[0] == a[0] && a.take(2)[1] == a[1]);
    }
    if a.len() > 3 {
        assert(!(fetch_asked(a, 3) is Finish));
        assert(a.take(3)[0] == a[0] && a.take(3)[1] == a[1] && a.take(3)[2] == a[2]);
    }
}

pub proof fn lemma_fetch_line()
    ensures
        split("fetch --quiet"@, ' ') == fetch_line(),
{
    reveal_strlit("fetch --quiet");
    reveal_strlit("fetch");
    reveal_strlit("--quiet");
    assert("fetch --quiet"@ =~= "fetch"@ + seq![' '] + "--quiet"@);
    lemma_two("fetch --quiet"@, "fetch"@, "--quiet"@);
}

/// A directory that is no repo is made one and nothing more; one that is stays as
/// it is.
pub proof fn law_a_repo_is_made_once(root: Seq<char>, a: Seq<Answer>)
    ensures
        a.len() == 0 ==> initializing(root, a) == NextView::Run(is_repo_line()),
        a.len() == 1 && !a[0].ok ==> initializing(root, a) == NextView::Run(seq!["init"@]),
        a.len() >= 1 && a[0].ok ==> initializing(root, a) is Finish && initializing(
            root,
            a,
        )->Finish_0 is Idle,
        a.len() >= 2 && !a[0].ok ==> initializing(root, a) is Finish && (initializing(
            root,
            a,
        )->Finish_0 is Done <==> a[1].ok),
        a.len() >= 2 && !a[0].ok && !a[1].ok ==> initializing(root, a)->Finish_0 is Stopped,
{
    lemma_short_lines();
    reveal_strlit("init");
    lemma_split_one("init"@, ' ');
}

/// A clone goes where it is told to, and never over something that is there.
pub proof fn law_a_clone_goes_where_it_is_told(
    url: Seq<char>,
    dest: Seq<char>,
    exists: bool,
    a: Seq<Answer>,
)
    ensures
        exists ==> cloning(url, dest, exists, a) is Finish && cloning(url, dest, exists, a)->Finish_0
            is Stopped,
        !exists && a.len() == 0 ==> cloning(url, dest, exists, a) == NextView::Run(
            seq!["clone"@, url, dest],
        ),
        !exists && a.len() > 0 ==> cloning(url, dest, exists, a) is Finish && (cloning(
            url,
            dest,
            exists,
            a,
        )->Finish_0 is Done <==> a[0].ok),
        !exists && a.len() > 0 && !a[0].ok ==> cloning(url, dest, exists, a)->Finish_0 is Stopped,
{
}

// ---- status ----

pub open spec fn status_asked(a: Seq<Answer>, i: int) -> AskingView {
    taking_status(a.take(i))
}

pub open spec fn status_line() -> Seq<Seq<char>> {
    seq!["status"@, "--porcelain"@]
}

/// A status only looks: it asks five things, none of which changes anything, and
/// says of each what git answered. Outside a repo there is nothing to say.
pub proof fn law_a_status_says_what_git_says(a: Seq<Answer>)
    requires
        a.len() == 5,
        a[0].ok,
    ensures
        status_asked(a, 0) == AskingView::Run(is_repo_line()),
        status_asked(a, 1) == AskingView::Run(status_line()),
        status_asked(a, 2) == AskingView::Run(counts_line()),
        status_asked(a, 3) == AskingView::Run(remote_line()),
        status_asked(a, 4) == AskingView::Run(upstream_line()),
        taking_status(a) matches AskingView::Finish(st) && {
            &&& st.is_repo
            &&& !a[1].ok ==> st.dirty == 0
            &&& a[1].ok && crate::text::lines_of(a[1].out).len() <= usize::MAX ==> st.dirty
                == full_lines(
                crate::text::lines_of(a[1].out),
                crate::text::lines_of(a[1].out).len() as int,
            )
            &&& counts(a[2]) matches Some((behind, ahead)) ==> st.behind == behind && st.ahead
                == ahead
            &&& counts(a[2]) is None ==> st.behind == 0 && st.ahead == 0
            &&& st.has_remote == names_a_remote(a[3])
            &&& st.has_upstream == a[4].ok
        },
{
    lemma_short_lines();
    lemma_upstream_line();
    lemma_counts_line();
    lemma_status_line();
    lemma_full_lines(crate::text::lines_of(a[1].out), crate::text::lines_of(a[1].out).len() as int);
    assert forall|i: int, k: int| 0 <= k < i <= a.len() implies #[trigger] a.take(i)[k] == a[k] by {
    }
    assert(a.take(1)[0] == a[0] && a.take(2)[0] == a[0] && a.take(3)[0] == a[0] && a.take(4)[0]
        == a[0]);
}

/// Outside a repo nothing is asked after that was found out, and nothing is
/// claimed.
pub proof fn law_no_repo_has_no_status(a: Seq<Answer>)
    requires
        a.len() >= 1,
        !a[0].ok,
    ensures
        taking_status(a) matches AskingView::Finish(st) && !st.is_repo && !st.has_remote
            && !st.has_upstream && st.dirty == 0 && st.behind == 0 && st.ahead == 0,
{
}

proof fn lemma_status_line()
    ensures
        split("status --porcelain"@, ' ') == status_line(),
{
    reveal_strlit("status --porcelain");
    reveal_strlit("status");
    reveal_strlit("--porcelain");
    assert("status --porcelain"@ =~= "status"@ + seq![' '] + "--porcelain"@);
    lemma_two("status --porcelain"@, "status"@, "--porcelain"@);
}

proof fn lemma_full_lines(lines: Seq<Seq<char>>, n: int)
    requires
        0 <= n <= lines.len(),
    ensures
        0 <= full_lines(lines, n) <= n,
    decreases n,
{
    if n > 0 {
        lemma_full_lines(lines, n - 1);
    }
}

/// Lines are counted that say something: all of them where none is blank, and
/// none where all are.
pub proof fn law_blank_lines_do_not_count(lines: Seq<Seq<char>>, n: int)
    requires
        0 <= n <= lines.len(),
    ensures
        0 <= full_lines(lines, n) <= n,
        (forall|i: int| 0 <= i < n ==> blank(#[trigger] lines[i])) ==> full_lines(lines, n) == 0,
        (forall|i: int| 0 <= i < n ==> !blank(#[trigger] lines[i])) ==> full_lines(lines, n) == n,
        full_lines(lines, n) == 0 ==> forall|i: int| 0 <= i < n ==> blank(#[trigger] lines[i]),
    decreases n,
{
    if n > 0 {
        law_blank_lines_do_not_count(lines, n - 1);
    }
}

// ---- counting commits ----

/// A word after white space, or first of all, is the last of a text's words.
proof fn lemma_last_word(before: Seq<char>, w: Seq<char>)
    requires
        w.len() > 0,
        forall|i: int| 0 <= i < w.len() ==> !crate::text::is_white(#[trigger] w[i]),
        before.len() > 0 ==> crate::text::is_white(before.last()),
    ensures
        words(before + w) == words(before).push(w),
    decreases w.len(),
{
    let s = before + w;
    assert(s.last() == w.last());
    if w.len() == 1 {
        assert(s.drop_last() =~= before);
        assert(seq![s.last()] =~= w);
        if before.len() > 0 {
            assert(s[s.len() - 2] == before.last());
        }
    } else {
        let v = w.drop_last();
        assert forall|i: int| 0 <= i < v.len() implies !crate::text::is_white(#[trigger] v[i]) by {
            assert(v[i] == w[i]);
        }
        lemma_last_word(before, v);
        assert(s.drop_last() =~= before + v);
        assert(s[s.len() - 2] == w[w.len() - 2]);
        assert(words(before).push(v).drop_last() =~= words(before));
        assert(v.push(w.last()) =~= w);
    }
}

/// The two numbers git prints are read as they were printed: first what the other
/// side has more, and then what this side has.
pub proof fn law_counts_are_read_in_order(behind: u32, ahead: u32, ran: bool, err: Seq<char>)
    ensures
        counts(
            Answer {
                ran,
                ok: true,
                out: crate::text::decimal(behind as nat) + seq!['\t'] + crate::text::decimal(
                    ahead as nat,
                ),
                err,
            },
        ) == Some((behind, ahead)),
        forall|a: Answer| !a.ok ==> #[trigger] counts(a) is None,
{
    let (b, h) = (crate::text::decimal(behind as nat), crate::text::decimal(ahead as nat));
    crate::text::law_decimal_round_trips(behind as nat);
    crate::text::law_decimal_round_trips(ahead as nat);
    let first = b + seq!['\t'];
    let s = first + h;
    assert forall|i: int| 0 <= i < b.len() implies !crate::text::is_white(#[trigger] b[i]) by {
        assert(crate::text::is_digit(b[i]));
    }
    assert forall|i: int| 0 <= i < h.len() implies !crate::text::is_white(#[trigger] h[i]) by {
        assert(crate::text::is_digit(h[i]));
    }
    assert(words(Seq::empty()) =~= Seq::<Seq<char>>::empty());
    lemma_last_word(Seq::empty(), b);
    assert(Seq::<char>::empty() + b =~= b);
    assert(first.drop_last() =~= b);
    assert(crate::text::is_white('\t'));
    assert(first.last() == '\t');
    assert(words(first) == words(b));
    lemma_last_word(first, h);
    assert(words(s) =~= seq![b, h]);
    assert(crate::text::is_digit(b[0]) && crate::text::is_digit(h[0]));
}

} // verus!

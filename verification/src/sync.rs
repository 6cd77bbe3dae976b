//! Git sync for the pin repo: pull on start, commit and push on change.
//!
//! It only ever runs against the pin root (`~/pinz-board` by default), which
//! contains nothing but pins - that isolation is the whole reason they live in
//! their own repo instead of riding along in a notes repo, where an auto-push
//! would sweep up unrelated work in progress and an auto-pull would be blocked
//! by it.
//!
//! The governing rule is **stop rather than guess**. A fetch that fails (offline,
//! no remote, no upstream) is not an error: pinz says so and carries on with
//! local files. But anything that would need a judgement call about whose
//! version of a pin wins leaves the repo exactly as it was and hands it back to
//! you.
//!
//! Each step is a conversation with git. It is handed the answers so far and
//! says what to do next: run a command, write a file, or stop there.

use crate::git::{
    answers, ask, ask_of, asks, asks_of, count_lines, finish_idle, finish_stopped, finish_worked,
    first_line, full_lines, glued, headline, idle, stopped, worked, words, words_of, Answer, Next,
    NextView, Outcome, Reply, SyncStatus,
};
use crate::pinfile::{count_of, parse_count};
use crate::text::{lines_of, opt_str, split, string_of, strs};
use vstd::prelude::*;

verus! {

broadcast use crate::text::group_strs;

/// Git operations scoped to one directory.
#[derive(Debug)]
pub struct Sync {
    pub root: String,
}

// ---- single questions ----

/// Commits behind and ahead of the upstream, as git counts them.
pub open spec fn counts(a: Answer) -> Option<(u32, u32)> {
    let w = words(a.out);
    if a.ok && w.len() >= 2 && count_of(w[0]) is Some && count_of(w[1]) is Some {
        Some((count_of(w[0])->0 as u32, count_of(w[1])->0 as u32))
    } else {
        None
    }
}

/// The counts, nothing where there are none.
pub open spec fn counts_or_none(a: Answer) -> (u32, u32) {
    match counts(a) {
        Some(c) => c,
        None => (0, 0),
    }
}

/// Whether an answer to `git remote` names one.
pub open spec fn names_a_remote(a: Answer) -> bool {
    a.ok && a.out.len() > 0
}

pub(crate) fn behind_ahead(r: &Reply) -> (out: Option<(u32, u32)>)
    ensures
        out == counts(r@),
{
    if !r.ok() {
        return None;
    }
    let w = words_of(&r.out());
    if w.len() < 2 {
        return None;
    }
    match (parse_count(&string_of(&w[0])), parse_count(&string_of(&w[1]))) {
        (Some(behind), Some(ahead)) => Some((behind, ahead)),
        _ => None,
    }
}

fn has_remote(r: &Reply) -> (b: bool)
    ensures
        b == names_a_remote(r@),
{
    r.ok() && !r.out().as_str().is_empty()
}

impl Sync {
    pub fn new(root: &str) -> (s: Sync)
        ensures
            s.root@ == root@,
    {
        Sync { root: root.to_owned() }
    }

    pub fn root(&self) -> (root: &str)
        ensures
            root@ == self.root@,
    {
        self.root.as_str()
    }

    /// Whether the directory is a git repo, from the answer to `git rev-parse
    /// --git-dir`.
    pub fn is_repo(reply: &Reply) -> (r: bool)
        ensures
            r == reply@.ok,
    {
        reply.ok()
    }

    /// Where a push goes, from the answer to `git remote get-url origin`, or
    /// `None` with no remote.
    ///
    /// A fact rather than a phrasing: the raw URL, for a caller to shorten or
    /// print however suits it.
    pub fn remote_url(reply: &Reply) -> (url: Option<String>)
        ensures
            opt_str(url) == (if reply@.ok && reply@.out.len() > 0 {
                Some(reply@.out)
            } else {
                None
            }),
    {
        let out = reply.out();
        if reply.ok() && !out.as_str().is_empty() {
            Some(out)
        } else {
            None
        }
    }

    /// How many commits the current branch carries, from the answer to `git
    /// rev-list --count HEAD`. Zero for a directory that is not a repo, and zero
    /// for a repo whose first commit has not happened yet.
    pub fn commit_count(reply: &Reply) -> (n: u32)
        ensures
            n == (if reply@.ok && count_of(reply@.out) is Some {
                count_of(reply@.out)->0
            } else {
                0
            }),
    {
        if reply.ok() {
            match parse_count(&reply.out()) {
                Some(n) => n,
                None => 0,
            }
        } else {
            0
        }
    }
}

// ---- fetch, status, init ----

/// Ask the remote what it has.
pub open spec fn fetching(a: Seq<Answer>) -> NextView {
    if a.len() <= 0 {
        asks("rev-parse --git-dir"@)
    } else if !a[0].ok {
        idle("not a git repo yet"@)
    } else if a.len() <= 1 {
        asks("remote"@)
    } else if !names_a_remote(a[1]) {
        idle("no remote configured"@)
    } else if a.len() <= 2 {
        asks("fetch --quiet"@)
    } else if a[2].ok {
        worked("fetched"@)
    } else if a[2].ran {
        idle("could not fetch: "@ + headline(a[2].err))
    } else {
        idle("git is not on PATH"@)
    }
}

/// The repo's state, or what to ask for it.
pub enum Asking {
    Run(Vec<String>),
    Finish(SyncStatus),
}

/// [`Asking`] as a value.
pub enum AskingView {
    Run(Seq<Seq<char>>),
    Finish(SyncStatus),
}

impl View for Asking {
    type V = AskingView;

    open spec fn view(&self) -> AskingView {
        match self {
            Asking::Run(args) => AskingView::Run(strs(args@)),
            Asking::Finish(s) => AskingView::Finish(*s),
        }
    }
}

/// A snapshot of the repo's state.
pub open spec fn taking_status(a: Seq<Answer>) -> AskingView {
    if a.len() <= 0 {
        AskingView::Run(split("rev-parse --git-dir"@, ' '))
    } else if !a[0].ok {
        AskingView::Finish(
            SyncStatus {
                is_repo: false,
                has_remote: false,
                has_upstream: false,
                dirty: 0,
                behind: 0,
                ahead: 0,
            },
        )
    } else if a.len() <= 1 {
        AskingView::Run(split("status --porcelain"@, ' '))
    } else if a.len() <= 2 {
        AskingView::Run(split("rev-list --left-right --count @{u}...HEAD"@, ' '))
    } else if a.len() <= 3 {
        AskingView::Run(split("remote"@, ' '))
    } else if a.len() <= 4 {
        AskingView::Run(split("rev-parse --abbrev-ref @{u}"@, ' '))
    } else {
        let dirty = lines_of(a[1].out);
        AskingView::Finish(
            SyncStatus {
                is_repo: true,
                has_remote: names_a_remote(a[3]),
                has_upstream: a[4].ok,
                dirty: if a[1].ok {
                    full_lines(dirty, dirty.len() as int) as usize
                } else {
                    0
                },
                behind: counts_or_none(a[2]).0,
                ahead: counts_or_none(a[2]).1,
            },
        )
    }
}

/// Turn the pin directory into a git repo.
pub open spec fn initializing(root: Seq<char>, a: Seq<Answer>) -> NextView {
    if a.len() <= 0 {
        asks("rev-parse --git-dir"@)
    } else if a[0].ok {
        idle("already a git repo"@)
    } else if a.len() <= 1 {
        asks("init"@)
    } else if a[1].ok {
        worked("initialized "@ + root)
    } else if a[1].ran {
        stopped("git init failed: "@ + headline(a[1].err))
    } else {
        stopped("git is not on PATH"@)
    }
}

impl Sync {
    /// Ask the remote what it has, without changing anything locally. Failure
    /// here means offline or no remote, which is never fatal.
    pub fn fetch(&self, replies: &[Reply]) -> (n: Next)
        ensures
            n@ == fetching(answers(replies@)),
    {
        if replies.len() == 0 {
            ask("rev-parse --git-dir")
        } else if !replies[0].ok() {
            finish_idle("not a git repo yet")
        } else if replies.len() == 1 {
            ask("remote")
        } else if !has_remote(&replies[1]) {
            finish_idle("no remote configured")
        } else if replies.len() == 2 {
            ask("fetch --quiet")
        } else if replies[2].ok() {
            finish_worked("fetched")
        } else if replies[2].ran() {
            finish_idle(&glued("could not fetch: ", &first_line(&replies[2].err())))
        } else {
            finish_idle("git is not on PATH")
        }
    }

    /// A snapshot of the repo's state. Reads only what git already knows - fetch
    /// first if the remote counts need to be current.
    pub fn status(&self, replies: &[Reply]) -> (n: Asking)
        ensures
            n@ == taking_status(answers(replies@)),
    {
        let line = if replies.len() == 0 {
            "rev-parse --git-dir"
        } else if !replies[0].ok() {
            return Asking::Finish(SyncStatus::default());
        } else if replies.len() == 1 {
            "status --porcelain"
        } else if replies.len() == 2 {
            "rev-list --left-right --count @{u}...HEAD"
        } else if replies.len() == 3 {
            "remote"
        } else if replies.len() == 4 {
            "rev-parse --abbrev-ref @{u}"
        } else {
            let dirty: usize = if replies[1].ok() {
                count_lines(&replies[1].out())
            } else {
                0
            };
            let (behind, ahead) = match behind_ahead(&replies[2]) {
                Some(c) => c,
                None => (0, 0),
            };
            return Asking::Finish(
                SyncStatus {
                    is_repo: true,
                    has_remote: has_remote(&replies[3]),
                    has_upstream: replies[4].ok(),
                    dirty,
                    behind,
                    ahead,
                },
            );
        };
        Asking::Run(crate::text::split_strings(line, ' '))
    }

    /// Turn the pin directory into a git repo if it isn't one. Local only: the
    /// remote is yours to create and name.
    pub fn init(&self, replies: &[Reply]) -> (n: Next)
        ensures
            n@ == initializing(self.root@, answers(replies@)),
    {
        if replies.len() == 0 {
            ask("rev-parse --git-dir")
        } else if replies[0].ok() {
            finish_idle("already a git repo")
        } else if replies.len() == 1 {
            ask("init")
        } else if replies[1].ok() {
            finish_worked(&glued("initialized ", &self.root))
        } else if replies[1].ran() {
            finish_stopped(&glued("git init failed: ", &first_line(&replies[1].err())))
        } else {
            finish_stopped("git is not on PATH")
        }
    }
}

// ---- commit and push ----

/// Staging and committing, with the answers from `at` on: still asking, ended,
/// or done with the answers up to some point, with or without a commit.
pub enum Staging {
    Asks(NextView),
    Ended(Outcome),
    Staged { at: int, commit: bool },
}

/// Stage everything and commit it if anything was staged.
pub open spec fn staging(message: Seq<char>, a: Seq<Answer>) -> Staging {
    if a.len() <= 0 {
        Staging::Asks(asks("rev-parse --git-dir"@))
    } else if !a[0].ok {
        Staging::Ended(Outcome::Idle("not a git repo yet"@))
    } else if a.len() <= 1 {
        Staging::Asks(asks("add -A"@))
    } else if !a[1].ran {
        Staging::Ended(Outcome::Idle("git is not on PATH"@))
    } else if !a[1].ok {
        Staging::Ended(Outcome::Stopped("git add failed: "@ + headline(a[1].err)))
    } else if a.len() <= 2 {
        Staging::Asks(asks("diff --cached --quiet"@))
    } else if !(a[2].ran && !a[2].ok) {
        // The comparison fails when something is staged.
        Staging::Staged { at: 3, commit: false }
    } else if a.len() <= 3 {
        Staging::Asks(asks_of("commit -m"@, message))
    } else if !a[3].ran {
        Staging::Ended(Outcome::Idle("git is not on PATH"@))
    } else if !a[3].ok {
        Staging::Ended(
            Outcome::Stopped(
                "git commit failed: "@ + headline(
                    if a[3].err.len() == 0 {
                        a[3].out
                    } else {
                        a[3].err
                    },
                ),
            ),
        )
    } else {
        Staging::Staged { at: 4, commit: true }
    }
}

/// Checkpoint whatever changed.
pub open spec fn committing(message: Seq<char>, a: Seq<Answer>) -> NextView {
    match staging(message, a) {
        Staging::Asks(n) => n,
        Staging::Ended(o) => NextView::Finish(o),
        Staging::Staged { at, commit } => if commit {
            worked("committed local pins"@)
        } else {
            idle("nothing to commit"@)
        },
    }
}

/// What is left of a push once everything is committed.
pub open spec fn sending(at: int, commit: bool, a: Seq<Answer>) -> NextView {
    // Whether to ask if anything is waiting: a commit just now is.
    let asked = if commit {
        at + 1
    } else {
        at + 2
    };
    if a.len() <= at {
        asks("remote"@)
    } else if !names_a_remote(a[at]) {
        idle(
            (if commit {
                "committed"@
            } else {
                "nothing to commit"@
            }) + "; no remote to push to"@,
        )
    } else if !commit && a.len() <= at + 1 {
        asks("rev-list --left-right --count @{u}...HEAD"@)
    } else if !commit && counts(a[at + 1]) is Some && counts_or_none(a[at + 1]).1 == 0 {
        idle("nothing to sync"@)
    } else if a.len() <= asked {
        asks("rev-parse --abbrev-ref @{u}"@)
    } else if a.len() <= asked + 1 {
        if a[asked].ok {
            asks("push --quiet"@)
        } else {
            asks("push --quiet -u origin HEAD"@)
        }
    } else if a[asked + 1].ok {
        worked(
            if commit {
                "committed and pushed"@
            } else {
                "pushed"@
            },
        )
    } else if a[asked + 1].ran {
        stopped("push failed: "@ + headline(a[asked + 1].err))
    } else {
        idle("git is not on PATH"@)
    }
}

/// Commit whatever changed and push it.
pub open spec fn pushing(message: Seq<char>, a: Seq<Answer>) -> NextView {
    match staging(message, a) {
        Staging::Asks(n) => n,
        Staging::Ended(o) => NextView::Finish(o),
        Staging::Staged { at, commit } => sending(at, commit, a),
    }
}

/// Where staging stands: what to do next, or how far the answers went and
/// whether there was a commit.
fn stage_and_commit(message: &str, replies: &[Reply]) -> (out: Result<(usize, bool), Next>)
    ensures
        match out {
            Ok((at, commit)) => staging(message@, answers(replies@)) == (Staging::Staged {
                at: at as int,
                commit,
            }) && at <= replies@.len(),
            Err(n) => match staging(message@, answers(replies@)) {
                Staging::Asks(m) => n@ == m,
                Staging::Ended(o) => n@ == NextView::Finish(o),
                Staging::Staged { .. } => false,
            },
        },
{
    if replies.len() == 0 {
        return Err(ask("rev-parse --git-dir"));
    }
    if !replies[0].ok() {
        return Err(finish_idle("not a git repo yet"));
    }
    if replies.len() == 1 {
        return Err(ask("add -A"));
    }
    if !replies[1].ran() {
        return Err(finish_idle("git is not on PATH"));
    }
    if !replies[1].ok() {
        return Err(finish_stopped(&glued("git add failed: ", &first_line(&replies[1].err()))));
    }
    if replies.len() == 2 {
        return Err(ask("diff --cached --quiet"));
    }
    if !(replies[2].ran() && !replies[2].ok()) {
        return Ok((3, false));
    }
    if replies.len() == 3 {
        return Err(ask_of("commit -m", message));
    }
    if !replies[3].ran() {
        return Err(finish_idle("git is not on PATH"));
    }
    if !replies[3].ok() {
        let err = replies[3].err();
        let said = if err.as_str().is_empty() {
            replies[3].out()
        } else {
            err
        };
        return Err(finish_stopped(&glued("git commit failed: ", &first_line(&said))));
    }
    Ok((4, true))
}

impl Sync {
    /// Checkpoint whatever changed, without sending it anywhere.
    ///
    /// Worth its own step because git refuses to pull over uncommitted changes
    /// to a file the other machine also touched - so a board with unsaved edits
    /// could not receive the other machine's pins at all. Committing first
    /// turns that refusal into an ordinary rebase, which [`Sync::pull`] can
    /// usually settle by itself. The commit is free: the pins are already on
    /// disk, and quitting would have committed them anyway.
    pub fn commit(&self, message: &str, replies: &[Reply]) -> (n: Next)
        ensures
            n@ == committing(message@, answers(replies@)),
    {
        match stage_and_commit(message, replies) {
            Err(n) => n,
            Ok((at, commit)) => if commit {
                finish_worked("committed local pins")
            } else {
                finish_idle("nothing to commit")
            },
        }
    }

    /// Commit whatever changed and push it, if there is anywhere to push to.
    pub fn push(&self, message: &str, replies: &[Reply]) -> (n: Next)
        ensures
            n@ == pushing(message@, answers(replies@)),
    {
        let (at, commit) = match stage_and_commit(message, replies) {
            Err(n) => return n,
            Ok(staged) => staged,
        };
        if replies.len() <= at {
            return ask("remote");
        }
        if !has_remote(&replies[at]) {
            return finish_idle(
                &glued(
                    if commit {
                        "committed"
                    } else {
                        "nothing to commit"
                    },
                    "; no remote to push to",
                ),
            );
        }
        let mut asked: usize = at + 1;
        if !commit {
            if replies.len() <= asked {
                return ask("rev-list --left-right --count @{u}...HEAD");
            }
            // Nothing new here and nothing waiting: say so rather than claiming a
            // push that moved no commits.
            if let Some((_, ahead)) = behind_ahead(&replies[asked]) {
                if ahead == 0 {
                    return finish_idle("nothing to sync");
                }
            }
            asked += 1;
        }
        if replies.len() <= asked {
            return ask("rev-parse --abbrev-ref @{u}");
        }
        if replies.len() <= asked + 1 {
            // A repo that has never been pushed has no upstream to push against.
            return if replies[asked].ok() {
                ask("push --quiet")
            } else {
                ask("push --quiet -u origin HEAD")
            };
        }
        let sent = &replies[asked + 1];
        if sent.ok() {
            finish_worked(
                if commit {
                    "committed and pushed"
                } else {
                    "pushed"
                },
            )
        } else if sent.ran() {
            finish_stopped(&glued("push failed: ", &first_line(&sent.err())))
        } else {
            finish_idle("git is not on PATH")
        }
    }
}

// ---- cloning ----

/// Bring a pin repo down from a URL.
pub open spec fn cloning(
    url: Seq<char>,
    dest: Seq<char>,
    exists: bool,
    a: Seq<Answer>,
) -> NextView {
    if exists {
        stopped(dest + " already exists"@)
    } else if a.len() <= 0 {
        NextView::Run(seq!["clone"@, url, dest])
    } else if a[0].ok {
        worked("cloned into "@ + dest)
    } else if a[0].ran {
        stopped(headline(a[0].err))
    } else {
        stopped("could not run git: "@ + a[0].err)
    }
}

/// Clone a pin repo from `url` into `dest`, which must not exist yet.
///
/// A free function rather than a method: every other git operation here acts
/// on a board that is already on disk, and this one is what puts it there.
pub fn clone_into(url: &str, dest: &str, exists: bool, replies: &[Reply]) -> (n: Next)
    ensures
        n@ == cloning(url@, dest@, exists, answers(replies@)),
{
    if exists {
        return finish_stopped(&glued(dest, " already exists"));
    }
    if replies.len() == 0 {
        let mut args: Vec<String> = Vec::new();
        args.push("clone".to_owned());
        args.push(url.to_owned());
        args.push(dest.to_owned());
        proof {
            assert(strs(args@) =~= seq!["clone"@, url@, dest@]);
        }
        return Next::Run(args);
    }
    if replies[0].ok() {
        finish_worked(&glued("cloned into ", dest))
    } else if replies[0].ran() {
        // git already says why in a sentence a person can act on; passing it
        // through beats paraphrasing a message we did not write.
        finish_stopped(&first_line(&replies[0].err()))
    } else {
        finish_stopped(&glued("could not run git: ", &replies[0].err()))
    }
}

} // verus!

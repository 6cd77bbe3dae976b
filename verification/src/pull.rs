//! Bringing in what the other machine pushed, and settling what can be settled
//! when both machines touched the same files.

use crate::git::{
    answers, ask, ask_of, asks, asks_of, finish_idle, finish_stopped, finish_worked, first_line,
    glued, headline, idle, stopped, worked, Answer, Next, NextView, Outcome, Reply,
};
use crate::last_world::{settle_world, settled, world_file};
use crate::merge::{merge_pin, merged};
use crate::sync::{behind_ahead, counts, fetching, Sync};
use crate::text::{
    chars_of, decimal, push_decimal, push_text, same_chars, same_str, split, split_chars,
    string_of, strs, sub_vec, trim_start, trimmed_start,
};
use vstd::prelude::*;

verus! {

broadcast use crate::text::group_strs;

// ---- which files are in conflict ----

/// An entry of `git status --porcelain -z`: two letters of state, then a path.
pub open spec fn code_of(entry: Seq<char>) -> Seq<char> {
    entry.take(2)
}

pub open spec fn path_of(entry: Seq<char>) -> Seq<char> {
    trim_start(entry.skip(2))
}

/// An entry that says a file is in conflict.
pub open spec fn in_conflict(entry: Seq<char>) -> bool {
    entry.len() > 3 && (code_of(entry).contains('U') || code_of(entry) == seq!['A', 'A']
        || code_of(entry) == seq!['D', 'D'])
}

pub open spec fn ends_in_md(path: Seq<char>) -> bool {
    path.len() >= 3 && path.skip(path.len() - 3) == seq!['.', 'm', 'd']
}

/// A conflict that can be looked into: a pin that both machines changed, or the
/// record of the open world, which both may also have made.
pub open spec fn ours_to_settle(entry: Seq<char>) -> bool {
    let code = code_of(entry);
    let path = path_of(entry);
    ||| code == seq!['U', 'U'] && ends_in_md(path)
    ||| path == world_file() && (code == seq!['U', 'U'] || code == seq!['A', 'A'])
}

/// The files in conflict among the first `n` entries - but only if every one of
/// them is ours to settle. Any other shape (a delete against an edit, both
/// machines adding different files, a file that is no pin) is not.
pub open spec fn conflicts(entries: Seq<Seq<char>>, n: int) -> Option<Seq<Seq<char>>>
    decreases n,
{
    if n <= 0 {
        Some(Seq::empty())
    } else {
        let so_far = conflicts(entries, n - 1);
        let e = entries[n - 1];
        if !in_conflict(e) {
            so_far
        } else if so_far is Some && ours_to_settle(e) {
            Some(so_far->0.push(path_of(e)))
        } else {
            None
        }
    }
}

/// The files a stopped rebase is in conflict on, if they are all ours to settle
/// and there are any.
#[verifier::opaque]
pub open spec fn conflicts_in(a: Answer) -> Option<Seq<Seq<char>>> {
    let entries = split(a.out, '\0');
    let all = conflicts(entries, entries.len() as int);
    if a.ok && all is Some && all->0.len() > 0 {
        all
    } else {
        None
    }
}

fn both(entry: &[char], c: char) -> (r: bool)
    requires
        entry@.len() >= 2,
    ensures
        r == (code_of(entry@) == seq![c, c]),
{
    proof {
        assert(code_of(entry@) == seq![c, c] <==> code_of(entry@) =~= seq![c, c]);
        assert(code_of(entry@)[0] == entry@[0] && code_of(entry@)[1] == entry@[1]);
    }
    entry[0] == c && entry[1] == c
}

fn is_conflict(entry: &[char]) -> (r: bool)
    ensures
        r == in_conflict(entry@),
{
    if entry.len() <= 3 {
        return false;
    }
    let unmerged = entry[0] == 'U' || entry[1] == 'U';
    proof {
        let code = code_of(entry@);
        if unmerged {
            if entry@[0] == 'U' {
                assert(code[0] == 'U');
            } else {
                assert(code[1] == 'U');
            }
        } else if code.contains('U') {
            let i = choose|i: int| 0 <= i < code.len() && code[i] == 'U';
            assert(entry@[i] == 'U');
        }
    }
    unmerged || both(entry, 'A') || both(entry, 'D')
}

fn conflict_path(entry: &[char]) -> (out: Option<String>)
    requires
        entry@.len() >= 2,
    ensures
        match out {
            Some(path) => ours_to_settle(entry@) && path@ == path_of(entry@),
            None => !ours_to_settle(entry@),
        },
{
    let after = sub_vec(entry, 2, entry.len());
    proof {
        assert(after@ =~= entry@.skip(2));
    }
    let path = trimmed_start(&after);
    let n: usize = path.len();
    let md = n >= 3 && path[n - 3] == '.' && path[n - 2] == 'm' && path[n - 1] == 'd';
    proof {
        if n >= 3 {
            let tail = path@.skip(n - 3);
            assert(tail[0] == path@[n - 3] && tail[1] == path@[n - 2] && tail[2] == path@[n - 1]);
            assert(tail == seq!['.', 'm', 'd'] <==> tail =~= seq!['.', 'm', 'd']);
        }
        assert(md == ends_in_md(path@));
    }
    let world = same_chars(&path, &chars_of(".pinz-world"));
    if (both(entry, 'U') && md) || (world && (both(entry, 'U') || both(entry, 'A'))) {
        Some(string_of(&path))
    } else {
        None
    }
}

/// The files the stopped rebase is in conflict on - but only if every one of
/// them is ours to settle.
fn conflicted_files(r: &Reply) -> (out: Option<Vec<String>>)
    ensures
        match out {
            Some(files) => conflicts_in(r@) == Some(strs(files@)),
            None => conflicts_in(r@) is None,
        },
{
    proof {
        reveal(conflicts_in);
    }
    if !r.ok() {
        return None;
    }
    // Entries end in NUL and paths are unquoted, so board names with spaces
    // survive.
    let entries = split_chars(&chars_of(&r.out()), '\0');
    let ghost want = split(r@.out, '\0');
    let mut files: Vec<String> = Vec::new();
    let mut i: usize = 0;
    proof {
        assert(strs(files@) =~= Seq::empty());
    }
    while i < entries.len()
        invariant
            i <= entries@.len(),
            entries@.len() == want.len(),
            want == split(r@.out, '\0'),
            r@.ok,
            forall|k: int| 0 <= k < entries@.len() ==> (#[trigger] entries@[k])@ == want[k],
            conflicts(want, i as int) == Some(strs(files@)),
        decreases entries@.len() - i,
    {
        if is_conflict(&entries[i]) {
            match conflict_path(&entries[i]) {
                Some(path) => files.push(path),
                None => {
                    proof {
                        reveal(conflicts_in);
                        assert(conflicts(want, i + 1) is None);
                        lemma_conflicts_stay_none(want, i + 1, want.len() as int);
                    }
                    return None;
                },
            }
        }
        i += 1;
    }
    if files.len() == 0 {
        // Stopped for a reason we do not understand.
        return None;
    }
    Some(files)
}

proof fn lemma_conflicts_stay_none(entries: Seq<Seq<char>>, n: int, m: int)
    requires
        n <= m <= entries.len(),
        conflicts(entries, n) is None,
    ensures
        conflicts(entries, m) is None,
    decreases m,
{
    if n < m {
        lemma_conflicts_stay_none(entries, n, m - 1);
    }
}

// ---- settling one file ----

/// Settling files, with the answers from some point on: still asking, given up,
/// or done, with the answers used up to some point.
pub enum Settling {
    Asks(NextView),
    Failed { at: int },
    Settled { at: int },
}

/// What a side of a conflict holds, if git could show it.
pub open spec fn shown(a: Answer) -> Option<Seq<char>> {
    if a.ok {
        Some(a.out)
    } else {
        None
    }
}

/// What to write for a file in conflict, if that is no judgement call.
pub open spec fn resolution(
    file: Seq<char>,
    base: Option<Seq<char>>,
    remote: Seq<char>,
    local: Seq<char>,
) -> Option<Seq<char>> {
    if file == world_file() {
        Some(settled(remote, local).push('\n'))
    } else {
        merged(base, remote, local)
    }
}

/// Settle one file and stage the result. During a rebase stage 2 is the
/// upstream (remote) side and stage 3 is the local commit being replayed; stage
/// 1, the common ancestor, can be absent.
#[verifier::opaque]
pub open spec fn settling_one(a: Seq<Answer>, at: int, file: Seq<char>) -> Settling {
    if a.len() <= at {
        Settling::Asks(asks_of("show"@, ":1:"@ + file))
    } else if a.len() <= at + 1 {
        Settling::Asks(asks_of("show"@, ":2:"@ + file))
    } else if a.len() <= at + 2 {
        Settling::Asks(asks_of("show"@, ":3:"@ + file))
    } else if !a[at + 1].ok || !a[at + 2].ok {
        Settling::Failed { at: at + 3 }
    } else {
        match resolution(file, shown(a[at]), a[at + 1].out, a[at + 2].out) {
            None => Settling::Failed { at: at + 3 },
            Some(text) => if a.len() <= at + 3 {
                Settling::Asks(NextView::Write { file, text })
            } else if !a[at + 3].ok {
                Settling::Failed { at: at + 4 }
            } else if a.len() <= at + 4 {
                Settling::Asks(asks_of("add --"@, file))
            } else if a[at + 4].ok {
                Settling::Settled { at: at + 5 }
            } else {
                Settling::Failed { at: at + 5 }
            },
        }
    }
}

/// Settle the files from the `i`-th on, each in turn.
#[verifier::opaque]
pub open spec fn settling(a: Seq<Answer>, at: int, files: Seq<Seq<char>>, i: int) -> Settling
    decreases files.len() - i,
{
    if i < 0 || i >= files.len() {
        Settling::Settled { at }
    } else {
        match settling_one(a, at, files[i]) {
            Settling::Settled { at } => settling(a, at, files, i + 1),
            other => other,
        }
    }
}

/// How settling one file stands.
enum Settled {
    Asks(Next),
    Failed(usize),
    Done(usize),
}

impl View for Settled {
    type V = Settling;

    closed spec fn view(&self) -> Settling {
        match self {
            Settled::Asks(n) => Settling::Asks(n@),
            Settled::Failed(at) => Settling::Failed { at: *at as int },
            Settled::Done(at) => Settling::Settled { at: *at as int },
        }
    }
}

impl Settled {
    /// How far the answers went.
    spec fn within(self, n: int) -> bool {
        match self {
            Settled::Asks(_) => true,
            Settled::Failed(at) => at <= n,
            Settled::Done(at) => at <= n,
        }
    }
}

/// Settle one file in conflict and stage the result.
fn resolve_conflict(replies: &[Reply], at: usize, file: &str) -> (out: Settled)
    requires
        at <= replies@.len(),
    ensures
        out@ == settling_one(answers(replies@), at as int, file@),
        out.within(replies@.len() as int),
{
    proof {
        reveal(settling_one);
    }
    let left: usize = replies.len() - at;
    if left == 0 {
        return Settled::Asks(ask_of("show", &glued(":1:", file)));
    }
    if left == 1 {
        return Settled::Asks(ask_of("show", &glued(":2:", file)));
    }
    if left == 2 {
        return Settled::Asks(ask_of("show", &glued(":3:", file)));
    }
    if !replies[at + 1].ok() || !replies[at + 2].ok() {
        return Settled::Failed(at + 3);
    }
    let base = replies[at].out();
    let remote = replies[at + 1].out();
    let local = replies[at + 2].out();
    let text: Option<String> = if same_str(file, ".pinz-world") {
        let mut text = chars_of(&settle_world(&remote, &local));
        text.push('\n');
        Some(string_of(&text))
    } else if replies[at].ok() {
        merge_pin(Some(base.as_str()), &remote, &local)
    } else {
        merge_pin(None, &remote, &local)
    };
    let text = match text {
        Some(text) => text,
        None => return Settled::Failed(at + 3),
    };
    if left == 3 {
        return Settled::Asks(Next::Write { file: file.to_owned(), text });
    }
    if !replies[at + 3].ok() {
        return Settled::Failed(at + 4);
    }
    if left == 4 {
        return Settled::Asks(ask_of("add --", file));
    }
    if replies[at + 4].ok() {
        Settled::Done(at + 5)
    } else {
        Settled::Failed(at + 5)
    }
}

fn resolve_conflicts(replies: &[Reply], from: usize, files: &[String]) -> (out: Settled)
    requires
        from <= replies@.len(),
    ensures
        out@ == settling(answers(replies@), from as int, strs(files@), 0),
        out.within(replies@.len() as int),
{
    let mut at: usize = from;
    let mut i: usize = 0;
    proof {
        reveal_with_fuel(settling, 1);
    }
    while i < files.len()
        invariant
            i <= files@.len(),
            at <= replies@.len(),
            settling(answers(replies@), from as int, strs(files@), 0) == settling(
                answers(replies@),
                at as int,
                strs(files@),
                i as int,
            ),
        decreases files@.len() - i,
    {
        proof {
            reveal_with_fuel(settling, 1);
        }
        let one = resolve_conflict(replies, at, &files[i]);
        match one {
            Settled::Done(next) => {
                at = next;
            },
            _ => {
                return one;
            },
        }
        i += 1;
    }
    Settled::Done(at)
}

// ---- settling a rebase ----

/// How many of the files are pins.
pub open spec fn pins_in(files: Seq<Seq<char>>, n: int) -> int
    decreases n,
{
    if n <= 0 {
        0
    } else {
        pins_in(files, n - 1) + if files[n - 1] == world_file() {
            0int
        } else {
            1
        }
    }
}

fn count_pins(files: &[String]) -> (n: usize)
    ensures
        n == pins_in(strs(files@), files@.len() as int),
        n <= files@.len(),
{
    let mut n: usize = 0;
    let mut i: usize = 0;
    while i < files.len()
        invariant
            i <= files@.len(),
            n <= i,
            n == pins_in(strs(files@), i as int),
        decreases files@.len() - i,
    {
        if !same_str(&files[i], ".pinz-world") {
            n += 1;
        }
        i += 1;
    }
    n
}

/// What to say when a human has to decide.
pub open spec fn clash(root: Seq<char>, behind: nat, ahead: nat) -> Seq<char> {
    "the same pin changed on both machines - "@ + decimal(ahead) + " local and "@ + decimal(behind)
        + " remote commit(s) conflict; resolve in "@ + root
}

/// Stop, leaving no half-finished rebase behind.
pub open spec fn aborting(
    root: Seq<char>,
    behind: nat,
    ahead: nat,
    a: Seq<Answer>,
    at: int,
) -> NextView {
    if a.len() <= at {
        asks("rebase --abort"@)
    } else {
        stopped(clash(root, behind, ahead))
    }
}

pub open spec fn replayed(ahead: nat, pins: int) -> Seq<char> {
    "replayed "@ + decimal(ahead) + " local commit(s), auto-merged "@ + decimal(pins as nat)
        + " pin(s)"@
}

/// A rebase has stopped on conflicts. Each pass settles one replayed commit's
/// conflicts; going on then either finishes or stops on the next commit.
/// Bounded by the commits being replayed, because that is every commit the
/// rebase can possibly stop on.
pub open spec fn resolving(
    root: Seq<char>,
    behind: nat,
    ahead: nat,
    a: Seq<Answer>,
    at: int,
    passes: nat,
    pins: int,
) -> NextView
    decreases passes,
{
    if passes == 0 {
        aborting(root, behind, ahead, a, at)
    } else if a.len() <= at {
        asks("status --porcelain -z"@)
    } else {
        match conflicts_in(a[at]) {
            None => aborting(root, behind, ahead, a, at + 1),
            Some(files) => match settling(a, at + 1, files, 0) {
                Settling::Asks(n) => n,
                Settling::Failed { at } => aborting(root, behind, ahead, a, at),
                Settling::Settled { at } => {
                    let pins = pins + pins_in(files, files.len() as int);
                    if a.len() <= at {
                        asks("-c core.editor=true rebase --continue"@)
                    } else if a[at].ok {
                        worked(replayed(ahead, pins))
                    } else if a[at].ran {
                        resolving(root, behind, ahead, a, at + 1, (passes - 1) as nat, pins)
                    } else {
                        aborting(root, behind, ahead, a, at + 1)
                    }
                },
            },
        }
    }
}

/// Bring in whatever the other machine pushed.
pub open spec fn pulling(root: Seq<char>, a: Seq<Answer>) -> NextView {
    match fetching(a) {
        NextView::Finish(Outcome::Done(_)) => if a.len() <= 3 {
            asks("rev-parse --abbrev-ref @{u}"@)
        } else if !a[3].ok {
            idle("no upstream branch set"@)
        } else if a.len() <= 4 {
            asks("rev-list --left-right --count @{u}...HEAD"@)
        } else {
            match counts(a[4]) {
                None => idle("could not compare with the remote"@),
                Some((behind, ahead)) => if behind == 0 {
                    idle("already up to date"@)
                } else if ahead == 0 {
                    if a.len() <= 5 {
                        asks("merge --ff-only @{u}"@)
                    } else if a[5].ok {
                        worked("pulled "@ + decimal(behind as nat) + " commit(s)"@)
                    } else if a[5].ran {
                        stopped("could not fast-forward: "@ + headline(a[5].err))
                    } else {
                        stopped("git is not on PATH"@)
                    }
                } else if a.len() <= 5 {
                    asks("rebase @{u}"@)
                } else if a[5].ok {
                    worked("replayed "@ + decimal(ahead as nat) + " local commit(s)"@)
                } else if a[5].ran {
                    resolving(root, behind as nat, ahead as nat, a, 6, ahead as nat, 0)
                } else {
                    stopped("git is not on PATH"@)
                },
            }
        },
        other => other,
    }
}

/// A number between two texts.
fn numbered(before: &str, n: u64, after: &str) -> (s: String)
    ensures
        s@ == before@ + decimal(n as nat) + after@,
{
    let mut out = chars_of(before);
    push_decimal(&mut out, n);
    push_text(&mut out, after);
    string_of(&out)
}

fn abort(root: &str, behind: u32, ahead: u32, replies: &[Reply], at: usize) -> (n: Next)
    ensures
        n@ == aborting(root@, behind as nat, ahead as nat, answers(replies@), at as int),
{
    if replies.len() <= at {
        return ask("rebase --abort");
    }
    let mut out = chars_of("the same pin changed on both machines - ");
    push_decimal(&mut out, ahead as u64);
    push_text(&mut out, " local and ");
    push_decimal(&mut out, behind as u64);
    push_text(&mut out, " remote commit(s) conflict; resolve in ");
    push_text(&mut out, root);
    proof {
        assert(out@ =~= clash(root@, behind as nat, ahead as nat));
    }
    finish_stopped(&string_of(&out))
}

/// A rebase has stopped on conflicts. Settle each file in conflict; if every one
/// resolves, the rebase goes on, otherwise it is aborted so the repo is exactly
/// as it was before the pull. Cosmetics (position, color) are never worth
/// stopping a sync over; a real content conflict still is.
fn resolve_conflicted_rebase(root: &str, behind: u32, ahead: u32, replies: &[Reply]) -> (n: Next)
    requires
        replies@.len() >= 6,
    ensures
        n@ == resolving(
            root@,
            behind as nat,
            ahead as nat,
            answers(replies@),
            6,
            ahead as nat,
            0,
        ),
{
    let ghost a = answers(replies@);
    let ghost want = resolving(root@, behind as nat, ahead as nat, a, 6, ahead as nat, 0);
    let mut at: usize = 6;
    let mut passes: u32 = ahead;
    let mut pins: u64 = 0;
    while passes > 0
        invariant
            6 <= at <= replies@.len(),
            a == answers(replies@),
            pins <= at,
            want == resolving(root@, behind as nat, ahead as nat, a, 6, ahead as nat, 0),
            want == resolving(
                root@,
                behind as nat,
                ahead as nat,
                a,
                at as int,
                passes as nat,
                pins as int,
            ),
        decreases passes,
    {
        if replies.len() <= at {
            return ask("status --porcelain -z");
        }
        let files = match conflicted_files(&replies[at]) {
            Some(files) => files,
            None => return abort(root, behind, ahead, replies, at + 1),
        };
        match resolve_conflicts(replies, at + 1, &files) {
            Settled::Asks(n) => return n,
            Settled::Failed(next) => return abort(root, behind, ahead, replies, next),
            Settled::Done(next) => {
                let more: usize = count_pins(&files);
                proof {
                    lemma_settling_uses_answers(a, at + 1, strs(files@), 0);
                }
                pins += more as u64;
                if replies.len() <= next {
                    return ask("-c core.editor=true rebase --continue");
                }
                let went_on = &replies[next];
                if went_on.ok() {
                    let mut out = chars_of("replayed ");
                    push_decimal(&mut out, ahead as u64);
                    push_text(&mut out, " local commit(s), auto-merged ");
                    push_decimal(&mut out, pins);
                    push_text(&mut out, " pin(s)");
                    proof {
                        assert(out@ =~= replayed(ahead as nat, pins as int));
                    }
                    return finish_worked(&string_of(&out));
                }
                if !went_on.ran() {
                    return abort(root, behind, ahead, replies, next + 1);
                }
                // Stopped on the next commit; go around again.
                at = next + 1;
            },
        }
        passes -= 1;
    }
    abort(root, behind, ahead, replies, at)
}

/// Settling a file takes at least as many answers as there are files.
proof fn lemma_settling_uses_answers(a: Seq<Answer>, at: int, files: Seq<Seq<char>>, i: int)
    requires
        0 <= i <= files.len(),
    ensures
        match settling(a, at, files, i) {
            Settling::Settled { at: end } => end >= at + files.len() - i,
            _ => true,
        },
    decreases files.len() - i,
{
    reveal_with_fuel(settling, 1);
    reveal(settling_one);
    if i < files.len() {
        match settling_one(a, at, files[i]) {
            Settling::Settled { at: next } => {
                lemma_settling_uses_answers(a, next, files, i + 1);
            },
            _ => {},
        }
    }
}

impl Sync {
    /// Bring in whatever the other machine pushed.
    ///
    /// Fast-forwards when only the remote moved. When both ends have commits,
    /// replays the local ones on top; if that can't be done cleanly the rebase
    /// is aborted, so the working tree is exactly as it was before the call.
    pub fn pull(&self, replies: &[Reply]) -> (n: Next)
        ensures
            n@ == pulling(self.root@, answers(replies@)),
    {
        // Not a repo, no remote, or offline: all reported as idle, because local
        // files are still perfectly fine to work with.
        let fetched = self.fetch(replies);
        match fetched {
            Next::Finish(crate::git::SyncOutcome::Done(_)) => {},
            _ => return fetched,
        }
        if replies.len() <= 3 {
            return ask("rev-parse --abbrev-ref @{u}");
        }
        if !replies[3].ok() {
            return finish_idle("no upstream branch set");
        }
        if replies.len() <= 4 {
            return ask("rev-list --left-right --count @{u}...HEAD");
        }
        let (behind, ahead) = match behind_ahead(&replies[4]) {
            Some(counts) => counts,
            None => return finish_idle("could not compare with the remote"),
        };
        if behind == 0 {
            return finish_idle("already up to date");
        }
        if ahead == 0 {
            return if replies.len() <= 5 {
                ask("merge --ff-only @{u}")
            } else if replies[5].ok() {
                finish_worked(&numbered("pulled ", behind as u64, " commit(s)"))
            } else if replies[5].ran() {
                finish_stopped(
                    &glued("could not fast-forward: ", &first_line(&replies[5].err())),
                )
            } else {
                finish_stopped("git is not on PATH")
            };
        }
        if replies.len() <= 5 {
            ask("rebase @{u}")
        } else if replies[5].ok() {
            finish_worked(&numbered("replayed ", ahead as u64, " local commit(s)"))
        } else if replies[5].ran() {
            resolve_conflicted_rebase(&self.root, behind, ahead, replies)
        } else {
            finish_stopped("git is not on PATH")
        }
    }
}

// ---- laws ----

/// Where a rebase stops is where the answers lead, whatever comes after: the
/// prefix of the answers that led there is followed by an abort.
proof fn lemma_stop_aborts(
    root: Seq<char>,
    behind: nat,
    ahead: nat,
    a: Seq<Answer>,
    at: int,
    passes: nat,
    pins: int,
)
    requires
        0 <= at <= a.len(),
        resolving(root, behind, ahead, a, at, passes, pins) matches NextView::Finish(
            Outcome::Stopped(_),
        ),
    ensures
        exists|n: int|
            at <= n < a.len() && #[trigger] resolving(
                root,
                behind,
                ahead,
                a.take(n),
                at,
                passes,
                pins,
            ) == asks("rebase --abort"@),
    decreases passes,
{
    if passes == 0 {
        assert(a.take(at).len() == at);
        assert(resolving(root, behind, ahead, a.take(at), at, passes, pins) == asks(
            "rebase --abort"@,
        ));
    } else {
        match conflicts_in(a[at]) {
            None => {
                let n = at + 1;
                assert(a.take(n)[at] == a[at]);
                assert(resolving(root, behind, ahead, a.take(n), at, passes, pins) == asks(
                    "rebase --abort"@,
                ));
            },
            Some(files) => {
                lemma_settling_end(a, at + 1, files, 0);
                match settling(a, at + 1, files, 0) {
                    Settling::Asks(_) => {
                        lemma_settling_asks(a, at + 1, files, 0);
                    },
                    Settling::Failed { at: n } => {
                        lemma_settling_prefix(a, at + 1, files, 0, n);
                        assert(a.take(n)[at] == a[at]);
                        assert(resolving(root, behind, ahead, a.take(n), at, passes, pins) == asks(
                            "rebase --abort"@,
                        ));
                    },
                    Settling::Settled { at: end } => {
                        let more = pins + pins_in(files, files.len() as int);
                        lemma_settling_uses_answers(a, at + 1, files, 0);
                        if a[end].ran {
                            lemma_stop_aborts(
                                root,
                                behind,
                                ahead,
                                a,
                                end + 1,
                                (passes - 1) as nat,
                                more,
                            );
                            let n = choose|n: int|
                                end + 1 <= n < a.len() && #[trigger] resolving(
                                    root,
                                    behind,
                                    ahead,
                                    a.take(n),
                                    end + 1,
                                    (passes - 1) as nat,
                                    more,
                                ) == asks("rebase --abort"@);
                            lemma_settling_prefix(a, at + 1, files, 0, n);
                            assert(a.take(n)[at] == a[at]);
                            assert(a.take(n)[end] == a[end]);
                            assert(resolving(root, behind, ahead, a.take(n), at, passes, pins)
                                == asks("rebase --abort"@));
                        } else {
                            let n = end + 1;
                            lemma_settling_prefix(a, at + 1, files, 0, n);
                            assert(a.take(n)[at] == a[at]);
                            assert(a.take(n)[end] == a[end]);
                            assert(resolving(root, behind, ahead, a.take(n), at, passes, pins)
                                == asks("rebase --abort"@));
                        }
                    },
                }
            },
        }
    }
}

/// What settling asks is a command or a file to write, never an end.
pub proof fn lemma_settling_asks(a: Seq<Answer>, at: int, files: Seq<Seq<char>>, i: int)
    ensures
        match settling(a, at, files, i) {
            Settling::Asks(n) => !(n is Finish),
            _ => true,
        },
    decreases files.len() - i,
{
    reveal_with_fuel(settling, 1);
    reveal(settling_one);
    if 0 <= i < files.len() {
        match settling_one(a, at, files[i]) {
            Settling::Settled { at: next } => {
                lemma_settling_asks(a, next, files, i + 1);
            },
            _ => {},
        }
    }
}

/// Settling that ended looks only at the answers it used.
proof fn lemma_one_prefix(a: Seq<Answer>, at: int, file: Seq<char>, n: int)
    requires
        0 <= at,
        n <= a.len(),
        match settling_one(a, at, file) {
            Settling::Asks(_) => false,
            Settling::Failed { at: end } => end <= n,
            Settling::Settled { at: end } => end <= n,
        },
    ensures
        settling_one(a.take(n), at, file) == settling_one(a, at, file),
        match settling_one(a, at, file) {
            Settling::Asks(_) => true,
            Settling::Failed { at: end } => at < end <= a.len(),
            Settling::Settled { at: end } => at < end <= a.len(),
        },
{
    reveal(settling_one);
    let b = a.take(n);
    assert(forall|i: int| 0 <= i < n ==> #[trigger] b[i] == a[i]);
    assert(a.len() > at + 2);
    assert(n >= at + 3);
    assert(b[at] == a[at] && b[at + 1] == a[at + 1] && b[at + 2] == a[at + 2]);
}

/// Settling that ended went forward, and no further than the answers.
pub proof fn lemma_settling_end(a: Seq<Answer>, at: int, files: Seq<Seq<char>>, i: int)
    requires
        0 <= at <= a.len(),
    ensures
        match settling(a, at, files, i) {
            Settling::Asks(_) => true,
            Settling::Failed { at: end } => at <= end <= a.len(),
            Settling::Settled { at: end } => at <= end <= a.len(),
        },
    decreases files.len() - i,
{
    reveal_with_fuel(settling, 1);
    if 0 <= i < files.len() {
        match settling_one(a, at, files[i]) {
            Settling::Asks(_) => {},
            Settling::Settled { at: next } => {
                lemma_one_end(a, at, files[i]);
                lemma_settling_end(a, next, files, i + 1);
            },
            Settling::Failed { .. } => {
                lemma_one_end(a, at, files[i]);
            },
        }
    }
}

proof fn lemma_one_end(a: Seq<Answer>, at: int, file: Seq<char>)
    ensures
        match settling_one(a, at, file) {
            Settling::Asks(_) => true,
            Settling::Failed { at: end } => at < end <= a.len(),
            Settling::Settled { at: end } => at < end <= a.len(),
        },
{
    reveal(settling_one);
}

/// Settling that ended looks only at the answers it used.
pub proof fn lemma_settling_prefix(a: Seq<Answer>, at: int, files: Seq<Seq<char>>, i: int, n: int)
    requires
        0 <= at <= a.len(),
        n <= a.len(),
        match settling(a, at, files, i) {
            Settling::Asks(_) => false,
            Settling::Failed { at: end } => end <= n,
            Settling::Settled { at: end } => end <= n,
        },
    ensures
        settling(a.take(n), at, files, i) == settling(a, at, files, i),
    decreases files.len() - i,
{
    reveal_with_fuel(settling, 1);
    if 0 <= i < files.len() {
        lemma_one_end(a, at, files[i]);
        match settling_one(a, at, files[i]) {
            Settling::Settled { at: next } => {
                lemma_settling_end(a, next, files, i + 1);
                lemma_one_prefix(a, at, files[i], n);
                lemma_settling_prefix(a, next, files, i + 1, n);
            },
            Settling::Failed { .. } => {
                lemma_one_prefix(a, at, files[i], n);
            },
            Settling::Asks(_) => {},
        }
    }
}

/// Stop rather than guess: a pull that stops on a conflict has first aborted the
/// rebase, so no half-finished one is left behind.
pub proof fn law_a_stopped_pull_was_aborted(root: Seq<char>, a: Seq<Answer>)
    requires
        a.len() > 5,
        pulling(root, a.take(5)) == asks("rebase @{u}"@),
        a[5].ran,
        pulling(root, a) matches NextView::Finish(Outcome::Stopped(_)),
    ensures
        exists|n: int|
            6 <= n < a.len() && #[trigger] pulling(root, a.take(n)) == asks("rebase --abort"@),
{
    let first = a.take(5);
    assert(forall|i: int| 0 <= i < 5 ==> #[trigger] first[i] == a[i]);
    lemma_lines_differ();
    match counts(a[4]) {
        Some((behind, ahead)) => {
            lemma_stop_aborts(root, behind as nat, ahead as nat, a, 6, ahead as nat, 0);
            let n = choose|n: int|
                6 <= n < a.len() && #[trigger] resolving(
                    root,
                    behind as nat,
                    ahead as nat,
                    a.take(n),
                    6,
                    ahead as nat,
                    0,
                ) == asks("rebase --abort"@);
            assert(forall|i: int| 0 <= i < 6 ==> #[trigger] a.take(n)[i] == a[i]);
            assert(pulling(root, a.take(n)) == asks("rebase --abort"@));
        },
        None => {},
    }
}

/// The commands a pull can be on its way with by then are told apart by their
/// first words.
proof fn lemma_lines_differ()
    ensures
        asks("merge --ff-only @{u}"@) != asks("rebase @{u}"@),
{
    reveal_strlit("merge --ff-only @{u}");
    reveal_strlit("rebase @{u}");
    let x = "merge --ff-only @{u}"@;
    let y = "rebase @{u}"@;
    crate::text::lemma_join_split(x, ' ');
    crate::text::lemma_join_split(y, ' ');
    assert(x.len() != y.len());
}

/// What a pull writes over a pin is what the merge of the three versions gave,
/// never a guess.
pub proof fn law_only_merges_are_written(a: Seq<Answer>, at: int, file: Seq<char>)
    requires
        file != world_file(),
    ensures
        match settling_one(a, at, file) {
            Settling::Asks(NextView::Write { file: written, text }) => written == file && merged(
                shown(a[at]),
                a[at + 1].out,
                a[at + 2].out,
            ) == Some(text),
            _ => true,
        },
{
    reveal(settling_one);
}

} // verus!

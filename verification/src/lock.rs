//! The board's write lock: one writer per board, on one machine.
//!
//! Two pinz instances open on the same machine share one directory, so git
//! never sees them clash and cannot help. The second instance holds a pin as it
//! was when it started, and rewrites the file when it saves - silently undoing
//! the first instance's edit. This module is what prevents that: the first
//! instance takes `.pinz-lock` in the pin root and may write; later ones learn
//! they are not the owner and open read-only.
//!
//! Deliberately machine-local. Two *machines* are git's problem and are handled
//! by the pin merge; `.pinz-lock` is gitignored and must never sync.
//!
//! The lock is advisory and fails open: if the file cannot be created at all
//! (a read-only or odd filesystem), the session still owns its board. Locking
//! someone out of their own pins over a filesystem quirk is the worse failure.

use crate::files::joined;
use crate::pinfile::{count_of, parse_count};
use crate::text::{
    chars_of, decimal, lines, lines_of, opt_str, push_decimal, push_text, same_chars, stands_at,
    string_of, sub_vec, trim, trimmed,
};
use vstd::prelude::*;

verus! {

/// The lock file's name inside the pin root.
pub const LOCK_FILE: &'static str = ".pinz-lock";

/// [`LOCK_FILE`] as a value.
pub open spec fn lock_name() -> Seq<char> {
    LOCK_FILE@
}

/// The result of trying to take the board's write lock.
#[derive(Debug)]
pub enum Ownership {
    /// This process owns the board and may write.
    Owner(BoardLock),
    /// Another live pinz owns it, so this session must stay read-only.
    Busy { pid: u32 },
}

impl Ownership {
    pub fn is_owner(&self) -> (r: bool)
        ensures
            r == (self is Owner),
    {
        match self {
            Ownership::Owner(_) => true,
            Ownership::Busy { .. } => false,
        }
    }
}

/// A held write lock.
#[derive(Debug)]
pub struct BoardLock {
    /// The file to remove when the session ends. `None` when the filesystem would
    /// not take a lock file: the session owns the board anyway, and has nothing
    /// to clean up.
    pub path: Option<String>,
}

/// What came of creating the lock file, without replacing one that is there.
#[derive(Debug, Clone, Copy, PartialEq, Eq, Structural)]
pub enum Written {
    Taken,
    /// Someone else holds it.
    Exists,
    /// The filesystem would not take the file at all.
    Failed,
}

/// Something that happened on the way to a lock.
#[derive(Debug)]
pub enum LockEvent {
    /// The lock file was created, or not.
    Wrote(Written),
    /// The lock file was read, if it could be.
    Read(Option<String>),
    /// The process that a lock names is running, or not.
    Alive(bool),
}

/// A [`LockEvent`] as a value.
pub enum Event {
    Wrote(Written),
    Read(Option<Seq<char>>),
    Alive(bool),
}

impl View for LockEvent {
    type V = Event;

    open spec fn view(&self) -> Event {
        match self {
            LockEvent::Wrote(w) => Event::Wrote(*w),
            LockEvent::Read(t) => Event::Read(opt_str(*t)),
            LockEvent::Alive(b) => Event::Alive(*b),
        }
    }
}

pub open spec fn events(e: Seq<LockEvent>) -> Seq<Event> {
    Seq::new(e.len(), |i: int| e[i]@)
}

/// What to do next about the lock.
#[derive(Debug)]
pub enum LockStep {
    /// Create the lock file, failing rather than truncating if it exists.
    Create,
    /// Read the lock file that is there.
    Read,
    /// Find out whether a process is running.
    Probe { pid: u32 },
    /// Remove the lock file, then create it.
    Replace,
    /// Nothing: this is who owns the board.
    Finish(Ownership),
}

/// A [`LockStep`] as a value. Owning the board comes with a file to remove, or
/// without one.
pub enum Step {
    Create,
    Read,
    Probe { pid: u32 },
    Replace,
    Own { path: Option<Seq<char>> },
    Busy { pid: u32 },
}

impl View for LockStep {
    type V = Step;

    open spec fn view(&self) -> Step {
        match self {
            LockStep::Create => Step::Create,
            LockStep::Read => Step::Read,
            LockStep::Probe { pid } => Step::Probe { pid: *pid },
            LockStep::Replace => Step::Replace,
            LockStep::Finish(Ownership::Owner(lock)) => Step::Own { path: opt_str(lock.path) },
            LockStep::Finish(Ownership::Busy { pid }) => Step::Busy { pid: *pid },
        }
    }
}

// ---- the lock file ----

/// What the lock file says.
pub open spec fn lock_text(pid: u32, since: u64) -> Seq<char> {
    "pid: "@ + decimal(pid as nat) + "\nsince: "@ + decimal(since as nat) + "\n"@
}

/// The contents of a new lock file.
pub fn lock_body(pid: u32, since: u64) -> (out: String)
    ensures
        out@ == lock_text(pid, since),
{
    let mut out = chars_of("pid: ");
    push_decimal(&mut out, pid as u64);
    push_text(&mut out, "\nsince: ");
    push_decimal(&mut out, since);
    push_text(&mut out, "\n");
    proof {
        assert(out@ =~= lock_text(pid, since));
    }
    string_of(&out)
}

/// A line that names the holder.
pub open spec fn names_holder(line: Seq<char>) -> bool {
    "pid:"@.is_prefix_of(line)
}

/// What the first line from `i` on that names the holder says.
pub open spec fn holder(lines: Seq<Seq<char>>, i: int) -> Option<int>
    decreases lines.len() - i,
{
    if i < 0 || i >= lines.len() {
        None
    } else if names_holder(lines[i]) {
        count_of(trim(lines[i].skip(4)))
    } else {
        holder(lines, i + 1)
    }
}

/// The pid a lock file names, if it names one. A malformed file has no
/// identifiable owner, which counts as stale.
pub open spec fn pid_in(text: Option<Seq<char>>) -> Option<u32> {
    match text {
        Some(text) => match holder(lines_of(text), 0) {
            Some(pid) => Some(pid as u32),
            None => None,
        },
        None => None,
    }
}

/// The pid a lock file names, if it could be read and names one.
pub fn read_pid(text: &Option<String>) -> (out: Option<u32>)
    ensures
        out == pid_in(opt_str(*text)),
{
    let body = match text {
        Some(body) => body,
        None => return None,
    };
    let all = lines(&chars_of(body));
    let ghost want = lines_of(body@);
    let prefix = chars_of("pid:");
    let mut i: usize = 0;
    proof {
        reveal_strlit("pid:");
    }
    while i < all.len()
        invariant
            i <= all@.len(),
            all@.len() == want.len(),
            want == lines_of(body@),
            opt_str(*text) == Some(body@),
            prefix@ == "pid:"@,
            prefix@.len() == 4,
            forall|k: int| 0 <= k < all@.len() ==> (#[trigger] all@[k])@ == want[k],
            holder(want, 0) == holder(want, i as int),
        decreases all@.len() - i,
    {
        let line = &all[i];
        if line.len() >= 4 && stands_at(&prefix, line, 0) {
            proof {
                assert("pid:"@ =~= line@.subrange(0, 4));
            }
            let value = sub_vec(line, 4, line.len());
            proof {
                assert(value@ =~= line@.skip(4));
            }
            return parse_count(&string_of(&trimmed(&value)));
        }
        proof {
            assert(!names_holder(line@));
        }
        i += 1;
    }
    None
}

// ---- keeping it out of git ----

/// Whether any of the first `n` lines ignores the lock file.
pub open spec fn ignores(lines: Seq<Seq<char>>, n: int) -> bool
    decreases n,
{
    n > 0 && (trim(lines[n - 1]) == lock_name() || ignores(lines, n - 1))
}

/// What to add to `.gitignore` so that git leaves the lock file alone.
pub open spec fn ignore_line(existing: Seq<char>) -> Option<Seq<char>> {
    if ignores(lines_of(existing), lines_of(existing).len() as int) {
        None
    } else if existing.len() == 0 || existing.last() == '\n' {
        Some(lock_name() + "\n"@)
    } else {
        Some("\n"@ + lock_name() + "\n"@)
    }
}

/// Keep the lock file out of git: what to append to `.gitignore`, if anything.
///
/// A sync stages everything, so an un-ignored lock would be committed and
/// carried to the other machine, where its pid means nothing and would lock a
/// board nobody is using. Appends rather than writes, because the pin repo is
/// the user's and may already ignore things of their own.
pub fn ensure_ignored(existing: &str) -> (out: Option<String>)
    ensures
        opt_str(out) == ignore_line(existing@),
{
    let chars = chars_of(existing);
    let all = lines(&chars);
    let ghost want = lines_of(existing@);
    let name = chars_of(LOCK_FILE);
    let mut i: usize = 0;
    while i < all.len()
        invariant
            i <= all@.len(),
            all@.len() == want.len(),
            want == lines_of(existing@),
            name@ == lock_name(),
            forall|k: int| 0 <= k < all@.len() ==> (#[trigger] all@[k])@ == want[k],
            !ignores(want, i as int),
        decreases all@.len() - i,
    {
        if same_chars(&trimmed(&all[i]), &name) {
            proof {
                assert(ignores(want, i + 1));
                lemma_ignores_stays(want, i + 1, want.len() as int);
            }
            return None;
        }
        i += 1;
    }
    let mut out: Vec<char> = Vec::new();
    let n: usize = chars.len();
    if n > 0 && chars[n - 1] != '\n' {
        push_text(&mut out, "\n");
    }
    push_text(&mut out, LOCK_FILE);
    push_text(&mut out, "\n");
    proof {
        assert(out@ =~= ignore_line(existing@)->0);
    }
    Some(string_of(&out))
}

proof fn lemma_ignores_stays(lines: Seq<Seq<char>>, n: int, m: int)
    requires
        n <= m,
        ignores(lines, n),
    ensures
        ignores(lines, m),
    decreases m,
{
    if n < m {
        lemma_ignores_stays(lines, n, m - 1);
    }
}

// ---- taking it ----

/// The way to a lock, from what has happened so far.
///
/// Someone may have got there first - unless they are gone, in which case the
/// file is debris from a crash and is taken over. A lock naming a live process
/// is honoured even when that pid is our own: an owner we cannot tell apart from
/// ourselves is still an owner.
pub open spec fn acquiring(root: Seq<char>, e: Seq<Event>) -> Step {
    let mine = Step::Own { path: Some(joined(root, lock_name())) };
    let bare = Step::Own { path: None };
    if e.len() == 0 || !(e[0] is Wrote) {
        Step::Create
    } else if e[0] == Event::Wrote(Written::Taken) {
        mine
    } else if e[0] == Event::Wrote(Written::Failed) {
        bare
    } else if e.len() == 1 || !(e[1] is Read) {
        Step::Read
    } else {
        match pid_in(e[1]->Read_0) {
            Some(pid) => if e.len() == 2 || !(e[2] is Alive) {
                Step::Probe { pid }
            } else if e[2]->Alive_0 {
                Step::Busy { pid }
            } else {
                taking_over(root, e, 3)
            },
            None => taking_over(root, e, 2),
        }
    }
}

/// Taking over a lock nobody holds.
pub open spec fn taking_over(root: Seq<char>, e: Seq<Event>, at: int) -> Step {
    let bare = Step::Own { path: None };
    if e.len() <= at || !(e[at] is Wrote) {
        Step::Replace
    } else if e[at] == Event::Wrote(Written::Taken) {
        Step::Own { path: Some(joined(root, lock_name())) }
    } else if e[at] == Event::Wrote(Written::Failed) {
        bare
    } else if e.len() <= at + 1 || !(e[at + 1] is Read) {
        // Lost the race to a third instance, or cannot tell.
        Step::Read
    } else {
        match pid_in(e[at + 1]->Read_0) {
            Some(pid) => Step::Busy { pid },
            None => bare,
        }
    }
}

fn owning(root: &str, file: bool) -> (s: LockStep)
    ensures
        s@ == (Step::Own {
            path: if file {
                Some(joined(root@, lock_name()))
            } else {
                None
            },
        }),
{
    if !file {
        return LockStep::Finish(Ownership::Owner(BoardLock { path: None }));
    }
    let mut path = chars_of(root);
    let n: usize = path.len();
    if n > 0 && path[n - 1] != '/' {
        push_text(&mut path, "/");
    }
    push_text(&mut path, LOCK_FILE);
    proof {
        assert(path@ =~= joined(root@, lock_name()));
    }
    LockStep::Finish(Ownership::Owner(BoardLock { path: Some(string_of(&path)) }))
}

fn take_over(root: &str, events_so_far: &[LockEvent], at: usize) -> (s: LockStep)
    requires
        at <= events_so_far@.len(),
    ensures
        s@ == taking_over(root@, events(events_so_far@), at as int),
{
    if events_so_far.len() == at {
        return LockStep::Replace;
    }
    match &events_so_far[at] {
        LockEvent::Wrote(Written::Taken) => owning(root, true),
        LockEvent::Wrote(Written::Failed) => owning(root, false),
        LockEvent::Wrote(Written::Exists) => {
            if events_so_far.len() == at + 1 {
                return LockStep::Read;
            }
            match &events_so_far[at + 1] {
                LockEvent::Read(text) => match read_pid(text) {
                    Some(pid) => LockStep::Finish(Ownership::Busy { pid }),
                    None => owning(root, false),
                },
                _ => LockStep::Read,
            }
        },
        _ => LockStep::Replace,
    }
}

impl BoardLock {
    /// Try to become the writer for the board rooted at `root`: what to do next,
    /// given what has happened so far.
    ///
    /// A lock naming a process that is no longer running is stale and gets
    /// taken over, so a hard kill never locks you out permanently.
    pub fn acquire(root: &str, events_so_far: &[LockEvent]) -> (s: LockStep)
        ensures
            s@ == acquiring(root@, events(events_so_far@)),
    {
        if events_so_far.len() == 0 {
            return LockStep::Create;
        }
        match &events_so_far[0] {
            LockEvent::Wrote(Written::Taken) => return owning(root, true),
            LockEvent::Wrote(Written::Failed) => return owning(root, false),
            LockEvent::Wrote(Written::Exists) => {},
            _ => return LockStep::Create,
        }
        if events_so_far.len() == 1 {
            return LockStep::Read;
        }
        let pid: Option<u32> = match &events_so_far[1] {
            LockEvent::Read(text) => read_pid(text),
            _ => return LockStep::Read,
        };
        match pid {
            Some(pid) => {
                if events_so_far.len() == 2 {
                    return LockStep::Probe { pid };
                }
                match &events_so_far[2] {
                    LockEvent::Alive(true) => LockStep::Finish(Ownership::Busy { pid }),
                    LockEvent::Alive(false) => take_over(root, events_so_far, 3),
                    _ => LockStep::Probe { pid },
                }
            },
            None => take_over(root, events_so_far, 2),
        }
    }
}

// ---- laws ----

/// The pid a session writes is the one another session reads.
pub proof fn law_a_lock_names_its_holder(pid: u32, since: u64)
    ensures
        pid_in(Some(lock_text(pid, since))) == Some(pid),
{
    let text = lock_text(pid, since);
    reveal_strlit("pid: ");
    reveal_strlit("pid:");
    reveal_strlit("\nsince: ");
    reveal_strlit("since: ");
    reveal_strlit("\n");
    crate::text::law_decimal_round_trips(pid as nat);
    crate::text::law_decimal_round_trips(since as nat);
    let p = decimal(pid as nat);
    let s = decimal(since as nat);
    let one = "pid: "@ + p;
    let two = "since: "@ + s;
    assert(text =~= (one.push('\n') + two).push('\n') + Seq::<char>::empty());
    assert forall|i: int| 0 <= i < one.len() implies one[i] != '\n' by {
        if i >= 5 {
            assert(one[i] == p[i - 5]);
            assert(crate::text::is_digit(p[i - 5]));
        }
    }
    assert forall|i: int| 0 <= i < two.len() implies two[i] != '\n' by {
        if i >= 7 {
            assert(two[i] == s[i - 7]);
            assert(crate::text::is_digit(s[i - 7]));
        }
    }
    crate::text::lemma_split_one(one, '\n');
    crate::text::lemma_split_tail(one, two, '\n');
    crate::text::lemma_split_tail(one.push('\n') + two, Seq::empty(), '\n');
    assert(crate::text::is_digit(p[p.len() - 1]) && crate::text::is_digit(p[0]));
    assert(one.last() == p.last());
    let all = lines_of(text);
    assert(all[0] == one);
    assert("pid:"@ =~= one.subrange(0, 4));
    assert(names_holder(one));
    assert(one.skip(4) =~= seq![' '] + p);
    crate::pinfile::lemma_trim_word(p);
}

/// One writer: a lock that names a running process is never taken over.
pub proof fn law_a_live_lock_is_honoured(root: Seq<char>, e: Seq<Event>)
    requires
        e.len() >= 3,
        e[0] == Event::Wrote(Written::Exists),
        e[1] is Read,
        pid_in(e[1]->Read_0) is Some,
        e[2] == Event::Alive(true),
    ensures
        acquiring(root, e) == (Step::Busy { pid: pid_in(e[1]->Read_0)->0 }),
{
}

/// A lock whose holder is gone, or that names none, is taken over.
pub proof fn law_a_stale_lock_is_taken_over(root: Seq<char>, e: Seq<Event>)
    requires
        e.len() >= 2,
        e[0] == Event::Wrote(Written::Exists),
        e[1] is Read,
        pid_in(e[1]->Read_0) is Some ==> e.len() >= 3 && e[2] == Event::Alive(false),
        ({
            let at = if pid_in(e[1]->Read_0) is Some {
                3int
            } else {
                2
            };
            e.len() == at + 1 && e[at] == Event::Wrote(Written::Taken)
        }),
    ensures
        acquiring(root, e) == (Step::Own { path: Some(joined(root, lock_name())) }),
        acquiring(root, e.drop_last()) == Step::Replace,
{
}

/// What is added to `.gitignore` ignores the lock, and is added once.
pub proof fn law_the_lock_ends_up_ignored(existing: Seq<char>)
    requires
        ignore_line(existing) is Some,
    ensures
        ignore_line(existing + ignore_line(existing)->0) is None,
{
    let more = ignore_line(existing)->0;
    let all = existing + more;
    reveal_strlit("\n");
    reveal_strlit(".pinz-lock");
    let name = lock_name();
    assert(!name.contains('\n')) by {
        assert(forall|i: int| 0 <= i < name.len() ==> name[i] != '\n');
    }
    let head = if existing.len() == 0 {
        existing
    } else if existing.last() == '\n' {
        existing.drop_last()
    } else {
        existing
    };
    crate::text::lemma_split_one(name, '\n');
    if existing.len() == 0 {
        assert(all =~= name.push('\n') + Seq::<char>::empty());
        crate::text::lemma_split_tail(name, Seq::empty(), '\n');
        assert(lines_of(all).len() == 1);
    } else {
        assert(all =~= (head.push('\n') + name).push('\n') + Seq::<char>::empty());
        crate::text::lemma_split_tail(head, name, '\n');
        crate::text::lemma_split_tail(head.push('\n') + name, Seq::empty(), '\n');
    }
    let n = lines_of(all).len() as int;
    assert(lines_of(all)[n - 1] == name);
    crate::pinfile::lemma_trim_word(name);
    assert(ignores(lines_of(all), n));
}

} // verus!

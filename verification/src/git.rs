//! Talking to git: what was asked, what came back, and what that amounted to.
//!
//! Nothing here runs a command. A step of a sync is worked out from the answers
//! so far; whoever can run commands asks the next question and adds the answer.

use crate::text::{
    chars_of, decimal, is_white, lines, lines_of, push_decimal, push_text, split, split_strings,
    string_of, strs, trim, trimmed, white,
};
use vstd::prelude::*;

verus! {

broadcast use crate::text::group_strs;

/// What a sync step did.
#[derive(Debug, Clone, PartialEq, Eq)]
pub enum SyncOutcome {
    /// Nothing needed doing, or nothing could be done without a network. Not an
    /// error: the app carries on with local files.
    Idle(String),
    /// Something happened, and it worked.
    Done(String),
    /// Deliberately stopped, leaving the repo untouched. Needs a human.
    Stopped(String),
}

/// A [`SyncOutcome`] as a value.
pub enum Outcome {
    Idle(Seq<char>),
    Done(Seq<char>),
    Stopped(Seq<char>),
}

impl View for SyncOutcome {
    type V = Outcome;

    open spec fn view(&self) -> Outcome {
        match self {
            SyncOutcome::Idle(m) => Outcome::Idle(m@),
            SyncOutcome::Done(m) => Outcome::Done(m@),
            SyncOutcome::Stopped(m) => Outcome::Stopped(m@),
        }
    }
}

impl Outcome {
    pub open spec fn says(self) -> Seq<char> {
        match self {
            Outcome::Idle(m) => m,
            Outcome::Done(m) => m,
            Outcome::Stopped(m) => m,
        }
    }
}

impl SyncOutcome {
    /// A one-line summary, suitable for printing before the TUI takes the
    /// screen.
    pub fn message(&self) -> (m: &str)
        ensures
            m@ == self@.says(),
    {
        match self {
            SyncOutcome::Idle(m) => m.as_str(),
            SyncOutcome::Done(m) => m.as_str(),
            SyncOutcome::Stopped(m) => m.as_str(),
        }
    }

    pub fn is_stopped(&self) -> (r: bool)
        ensures
            r == (self@ is Stopped),
    {
        match self {
            SyncOutcome::Stopped(_) => true,
            _ => false,
        }
    }
}

// ---- questions and answers ----

/// What came of running a command.
#[derive(Debug, Clone)]
pub enum Reply {
    /// It ran.
    Ran { ok: bool, stdout: String, stderr: String },
    /// It could not be run at all.
    NotRun { why: String },
}

/// A [`Reply`] as a value, what was printed without the white space around it.
pub struct Answer {
    pub ran: bool,
    pub ok: bool,
    pub out: Seq<char>,
    pub err: Seq<char>,
}

impl View for Reply {
    type V = Answer;

    open spec fn view(&self) -> Answer {
        match self {
            Reply::Ran { ok, stdout, stderr } => Answer {
                ran: true,
                ok: *ok,
                out: trim(stdout@),
                err: trim(stderr@),
            },
            Reply::NotRun { why } => Answer {
                ran: false,
                ok: false,
                out: Seq::empty(),
                err: trim(why@),
            },
        }
    }
}

/// A list of replies as a list of values.
pub open spec fn answers(replies: Seq<Reply>) -> Seq<Answer> {
    Seq::new(replies.len(), |i: int| replies[i]@)
}

impl Reply {
    pub(crate) fn ran(&self) -> (r: bool)
        ensures
            r == self@.ran,
    {
        match self {
            Reply::Ran { .. } => true,
            Reply::NotRun { .. } => false,
        }
    }

    /// Whether it ran and succeeded.
    pub(crate) fn ok(&self) -> (r: bool)
        ensures
            r == self@.ok,
    {
        match self {
            Reply::Ran { ok, .. } => *ok,
            Reply::NotRun { .. } => false,
        }
    }

    /// What it printed.
    pub(crate) fn out(&self) -> (s: String)
        ensures
            s@ == self@.out,
    {
        match self {
            Reply::Ran { stdout, .. } => string_of(&trimmed(&chars_of(stdout))),
            Reply::NotRun { .. } => {
                let none: Vec<char> = Vec::new();
                string_of(&none)
            },
        }
    }

    /// What it complained of.
    pub(crate) fn err(&self) -> (s: String)
        ensures
            s@ == self@.err,
    {
        match self {
            Reply::Ran { stderr, .. } => string_of(&trimmed(&chars_of(stderr))),
            Reply::NotRun { why } => string_of(&trimmed(&chars_of(why))),
        }
    }
}

/// What to do next: ask git something, write a file, or nothing more.
#[derive(Debug)]
pub enum Next {
    Run(Vec<String>),
    Write { file: String, text: String },
    Finish(SyncOutcome),
}

/// A [`Next`] as a value.
pub enum NextView {
    Run(Seq<Seq<char>>),
    Write { file: Seq<char>, text: Seq<char> },
    Finish(Outcome),
}

impl View for Next {
    type V = NextView;

    open spec fn view(&self) -> NextView {
        match self {
            Next::Run(args) => NextView::Run(strs(args@)),
            Next::Write { file, text } => NextView::Write { file: file@, text: text@ },
            Next::Finish(o) => NextView::Finish(o@),
        }
    }
}

/// A command line, a word per argument.
pub open spec fn asks(line: Seq<char>) -> NextView {
    NextView::Run(split(line, ' '))
}

/// A command line with one more argument, whatever it holds.
pub open spec fn asks_of(line: Seq<char>, last: Seq<char>) -> NextView {
    NextView::Run(split(line, ' ').push(last))
}

pub open spec fn idle(m: Seq<char>) -> NextView {
    NextView::Finish(Outcome::Idle(m))
}

pub open spec fn worked(m: Seq<char>) -> NextView {
    NextView::Finish(Outcome::Done(m))
}

pub open spec fn stopped(m: Seq<char>) -> NextView {
    NextView::Finish(Outcome::Stopped(m))
}

pub(crate) fn ask(line: &str) -> (n: Next)
    ensures
        n@ == asks(line@),
{
    Next::Run(split_strings(line, ' '))
}

pub(crate) fn ask_of(line: &str, last: &str) -> (n: Next)
    ensures
        n@ == asks_of(line@, last@),
{
    let mut args = split_strings(line, ' ');
    args.push(last.to_owned());
    Next::Run(args)
}

pub(crate) fn finish_idle(m: &str) -> (n: Next)
    ensures
        n@ == idle(m@),
{
    Next::Finish(SyncOutcome::Idle(m.to_owned()))
}

pub(crate) fn finish_worked(m: &str) -> (n: Next)
    ensures
        n@ == worked(m@),
{
    Next::Finish(SyncOutcome::Done(m.to_owned()))
}

pub(crate) fn finish_stopped(m: &str) -> (n: Next)
    ensures
        n@ == stopped(m@),
{
    Next::Finish(SyncOutcome::Stopped(m.to_owned()))
}

/// Two texts, one after the other.
pub(crate) fn glued(a: &str, b: &str) -> (s: String)
    ensures
        s@ == a@ + b@,
{
    let mut out = chars_of(a);
    push_text(&mut out, b);
    string_of(&out)
}

// ---- reading what git says ----

/// Whether a line has anything on it.
pub open spec fn blank(line: Seq<char>) -> bool {
    trim(line).len() == 0
}

/// The first of the lines from `i` on with anything on it.
pub open spec fn first_full(lines: Seq<Seq<char>>, i: int) -> Option<Seq<char>>
    decreases lines.len() - i,
{
    if i < 0 || i >= lines.len() {
        None
    } else if !blank(lines[i]) {
        Some(lines[i])
    } else {
        first_full(lines, i + 1)
    }
}

/// The first line that says anything, without the white space around it.
pub open spec fn headline(s: Seq<char>) -> Seq<char> {
    match first_full(lines_of(s), 0) {
        Some(line) => trim(line),
        None => trim(s),
    }
}

pub fn first_line(s: &str) -> (out: String)
    ensures
        out@ == headline(s@),
{
    let chars = chars_of(s);
    let all = lines(&chars);
    let ghost want = lines_of(s@);
    let mut i: usize = 0;
    while i < all.len()
        invariant
            i <= all@.len(),
            all@.len() == want.len(),
            forall|k: int| 0 <= k < all@.len() ==> (#[trigger] all@[k])@ == want[k],
            first_full(want, 0) == first_full(want, i as int),
            want == lines_of(s@),
        decreases all@.len() - i,
    {
        let line = trimmed(&all[i]);
        if line.len() > 0 {
            return string_of(&line);
        }
        i += 1;
    }
    string_of(&trimmed(&chars))
}

/// How many lines have anything on them.
pub open spec fn full_lines(lines: Seq<Seq<char>>, n: int) -> int
    decreases n,
{
    if n <= 0 {
        0
    } else {
        full_lines(lines, n - 1) + if blank(lines[n - 1]) {
            0int
        } else {
            1
        }
    }
}

pub(crate) fn count_lines(s: &str) -> (n: usize)
    ensures
        n == full_lines(lines_of(s@), lines_of(s@).len() as int),
{
    let all = lines(&chars_of(s));
    let ghost want = lines_of(s@);
    let mut n: usize = 0;
    let mut i: usize = 0;
    while i < all.len()
        invariant
            i <= all@.len(),
            n <= i,
            all@.len() == want.len(),
            forall|k: int| 0 <= k < all@.len() ==> (#[trigger] all@[k])@ == want[k],
            n == full_lines(want, i as int),
        decreases all@.len() - i,
    {
        if trimmed(&all[i]).len() > 0 {
            n += 1;
        }
        i += 1;
    }
    n
}

/// The words of a text: what stands between white space.
pub open spec fn words(s: Seq<char>) -> Seq<Seq<char>>
    decreases s.len(),
{
    if s.len() == 0 {
        Seq::empty()
    } else if is_white(s.last()) {
        words(s.drop_last())
    } else if s.len() == 1 || is_white(s[s.len() - 2]) {
        words(s.drop_last()).push(seq![s.last()])
    } else {
        let w = words(s.drop_last());
        w.drop_last().push(w.last().push(s.last()))
    }
}

pub(crate) fn words_of(s: &str) -> (out: Vec<Vec<char>>)
    ensures
        out@.len() == words(s@).len(),
        forall|i: int| 0 <= i < out@.len() ==> (#[trigger] out@[i])@ == words(s@)[i],
{
    let chars = chars_of(s);
    let mut out: Vec<Vec<char>> = Vec::new();
    let mut word: Vec<char> = Vec::new();
    let mut i: usize = 0;
    let ghost mut before: Seq<Seq<char>> = Seq::empty();
    proof {
        assert(chars@.take(0) =~= Seq::empty());
    }
    while i < chars.len()
        invariant
            i <= chars@.len(),
            before.len() == out@.len(),
            forall|k: int| 0 <= k < out@.len() ==> (#[trigger] out@[k])@ == before[k],
            word@.len() == 0 ==> words(chars@.take(i as int)) == before && (i == 0 || is_white(
                chars@[i - 1],
            )),
            word@.len() > 0 ==> words(chars@.take(i as int)) == before.push(word@) && i > 0
                && !is_white(chars@[i - 1]),
        decreases chars@.len() - i,
    {
        let c = chars[i];
        let ghost some = chars@.take(i + 1);
        proof {
            assert(some.drop_last() =~= chars@.take(i as int));
            if i > 0 {
                assert(some[some.len() - 2] == chars@[i - 1]);
            }
        }
        if white(c) {
            if word.len() > 0 {
                proof {
                    before = before.push(word@);
                }
                out.push(word);
                word = Vec::new();
            }
        } else {
            let ghost was = word@;
            word.push(c);
            proof {
                if was.len() == 0 {
                    assert(word@ =~= seq![c]);
                } else {
                    assert(before.push(was).drop_last() =~= before);
                }
            }
        }
        i += 1;
    }
    proof {
        assert(chars@.take(i as int) =~= chars@);
    }
    if word.len() > 0 {
        out.push(word);
    }
    out
}

// ---- the state of the repo ----

/// What git currently thinks of the pin repo. Cheap to take, so a command can
/// decide what actually needs doing instead of firing every step blindly.
#[derive(Debug, Clone, Copy, PartialEq, Eq, Structural)]
pub struct SyncStatus {
    pub is_repo: bool,
    pub has_remote: bool,
    pub has_upstream: bool,
    /// Files changed since the last commit.
    pub dirty: usize,
    /// Commits waiting on the remote, and waiting to be sent.
    pub behind: u32,
    pub ahead: u32,
}

impl Default for SyncStatus {
    fn default() -> (s: SyncStatus)
        ensures
            s == (SyncStatus {
                is_repo: false,
                has_remote: false,
                has_upstream: false,
                dirty: 0,
                behind: 0,
                ahead: 0,
            }),
    {
        SyncStatus {
            is_repo: false,
            has_remote: false,
            has_upstream: false,
            dirty: 0,
            behind: 0,
            ahead: 0,
        }
    }
}

/// A count of something, after what came before it.
pub open spec fn counted(so_far: Seq<char>, n: nat, what: Seq<char>) -> Seq<char> {
    if n == 0 {
        so_far
    } else if so_far.len() == 0 {
        decimal(n) + what
    } else {
        so_far + ", "@ + decimal(n) + what
    }
}

fn push_count(out: &mut Vec<char>, n: u64, what: &str)
    ensures
        final(out)@ == counted(old(out)@, n as nat, what@),
{
    let ghost start = out@;
    if n > 0 {
        if out.len() > 0 {
            push_text(out, ", ");
        }
        push_decimal(out, n);
        push_text(out, what);
        proof {
            assert(out@ =~= counted(start, n as nat, what@));
        }
    }
}

impl SyncStatus {
    /// Nothing at all to do.
    pub open spec fn settled(self) -> bool {
        self.dirty == 0 && self.behind == 0 && self.ahead == 0
    }

    /// Is there nothing at all to do?
    pub fn is_settled(&self) -> (r: bool)
        ensures
            r == self.settled(),
    {
        self.dirty == 0 && self.behind == 0 && self.ahead == 0
    }

    /// What state the repo is in, for a human.
    pub open spec fn says(self) -> Seq<char> {
        if !self.is_repo {
            "not a git repo yet"@
        } else if self.settled() {
            if self.has_remote {
                "in sync"@
            } else {
                "up to date locally (no remote)"@
            }
        } else {
            counted(
                counted(
                    counted(Seq::empty(), self.dirty as nat, " uncommitted change(s)"@),
                    self.behind as nat,
                    " to pull"@,
                ),
                self.ahead as nat,
                " to push"@,
            )
        }
    }

    /// One line for a human: what state the repo is in.
    pub fn summary(&self) -> (out: String)
        ensures
            out@ == self.says(),
    {
        if !self.is_repo {
            return "not a git repo yet".to_owned();
        }
        if self.is_settled() {
            return if self.has_remote {
                "in sync".to_owned()
            } else {
                "up to date locally (no remote)".to_owned()
            };
        }
        let mut out: Vec<char> = Vec::new();
        push_count(&mut out, self.dirty as u64, " uncommitted change(s)");
        push_count(&mut out, self.behind as u64, " to pull");
        push_count(&mut out, self.ahead as u64, " to push");
        string_of(&out)
    }
}

// ---- laws ----

proof fn lemma_first_full(lines: Seq<Seq<char>>, i: int)
    requires
        0 <= i <= lines.len(),
    ensures
        match first_full(lines, i) {
            Some(line) => exists|k: int|
                i <= k < lines.len() && #[trigger] lines[k] == line && !blank(line) && forall|j: int|
                    i <= j < k ==> blank(#[trigger] lines[j]),
            None => forall|k: int| i <= k < lines.len() ==> blank(#[trigger] lines[k]),
        },
    decreases lines.len() - i,
{
    if i < lines.len() {
        if blank(lines[i]) {
            lemma_first_full(lines, i + 1);
            if let Some(line) = first_full(lines, i + 1) {
                let k = choose|k: int|
                    i + 1 <= k < lines.len() && #[trigger] lines[k] == line && !blank(line)
                        && forall|j: int| i + 1 <= j < k ==> blank(#[trigger] lines[j]);
                assert(lines[k] == line);
            }
        } else {
            assert(lines[i] == first_full(lines, i)->0);
        }
    }
}

/// Of what git prints, the first line that says something is passed on, without the
/// white space around it.
pub proof fn law_the_first_line_that_says_something(s: Seq<char>, k: int)
    requires
        0 <= k < lines_of(s).len(),
        !blank(lines_of(s)[k]),
        forall|j: int| 0 <= j < k ==> blank(#[trigger] lines_of(s)[j]),
    ensures
        headline(s) == trim(lines_of(s)[k]),
        headline(s).len() > 0,
{
    lemma_first_full(lines_of(s), 0);
}

/// A repo with nothing to do says so, and one with something to do does not; what is
/// waiting is said with its number, and nothing else is.
pub proof fn law_what_a_status_says(st: SyncStatus)
    requires
        st.is_repo,
    ensures
        st.dirty == 0 && st.behind == 0 && st.ahead == 0 && st.has_remote ==> st.says()
            == "in sync"@,
        st.dirty > 0 && st.behind == 0 && st.ahead == 0 ==> st.says() == decimal(st.dirty as nat)
            + " uncommitted change(s)"@,
        st.dirty == 0 && st.behind > 0 && st.ahead == 0 ==> st.says() == decimal(st.behind as nat)
            + " to pull"@,
        st.dirty == 0 && st.behind == 0 && st.ahead > 0 ==> st.says() == decimal(st.ahead as nat)
            + " to push"@,
        st.dirty == 0 && st.behind > 0 && st.ahead > 0 ==> st.says() == decimal(st.behind as nat)
            + " to pull"@ + ", "@ + decimal(st.ahead as nat) + " to push"@,
{
    crate::text::law_decimal_round_trips(st.dirty as nat);
    crate::text::law_decimal_round_trips(st.behind as nat);
}

} // verus!

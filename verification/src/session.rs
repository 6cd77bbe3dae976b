//! A run of pinz: what the subcommands do in what order, how a board is opened,
//! and what happens between two events and at the end.

use crate::app::App;
use crate::cli::Command;
use crate::clipboard::{self, escape, CopyError, MAX_BYTES};
use crate::git::{Outcome, SyncOutcome, SyncStatus};
use crate::input::{Event, KeyEventKind};
use crate::model::{boards_view, Board, BoardView, Color, Note, NoteView};
use crate::report::{
    advice, detail_line, details, push_message, pushed_to, remote_advice, remote_name, report_line,
    short_remote, step_line,
};
use crate::state::AppState;
use crate::store::{
    answer, save_answer, SaveReport, Store, StoreAnswer, StoreCall, StoreError,
};
use crate::text::{chars_of, decimal, opt_str, push_decimal, push_text, string_of, strs};
use vstd::prelude::*;

verus! {

broadcast use crate::text::group_strs;

/// The board a brand new pin repo starts with, so there is always a tab.
pub const FIRST_BOARD: &'static str = "ideas";

/// The first world.
pub open spec fn first_world() -> BoardView {
    BoardView {
        name: FIRST_BOARD@,
        notes: seq![
            NoteView {
                id: 1,
                title: Seq::empty(),
                body: Seq::empty(),
                x: 0,
                y: 0,
                z: 1,
                color: Color::Yellow,
            },
        ],
    }
}

/// The first world, carrying one blank pin.
///
/// An empty board is a wall with nothing on it and no clue what to do; one
/// blank pin is a corkboard with a note already pinned, waiting to be written
/// on. Press `e` and start typing.
pub fn first_board() -> (b: Board)
    ensures
        b@ == first_world(),
{
    let blank: Vec<char> = Vec::new();
    let mut notes: Vec<Note> = Vec::new();
    notes.push(
        Note {
            id: 1,
            title: string_of(&blank),
            body: string_of(&blank),
            x: 0,
            y: 0,
            z: 1,
            color: Color::Yellow,
        },
    );
    let b = Board { name: FIRST_BOARD.to_owned(), notes };
    proof {
        assert(b@.notes =~= first_world().notes);
    }
    b
}

// ---- the git subcommands ----

/// Something a git subcommand has to do, or find out.
#[derive(Debug, Clone, Copy, PartialEq, Eq, Structural)]
pub enum Chore {
    /// Is the pin directory a repo?
    AskRepo,
    Init,
    Fetch,
    Status,
    Commit,
    Pull,
    Push,
    /// Where does a push go?
    RemoteUrl,
    Finish,
}

/// What came of a [`Chore`].
#[derive(Debug)]
pub enum ChoreDone {
    Repo(bool),
    Outcome(SyncOutcome),
    Status(SyncStatus),
    Url(Option<String>),
}

/// A [`ChoreDone`] as a value.
pub enum Came {
    Repo(bool),
    Outcome(Outcome),
    Status(SyncStatus),
    Url(Option<Seq<char>>),
}

impl View for ChoreDone {
    type V = Came;

    open spec fn view(&self) -> Came {
        match self {
            ChoreDone::Repo(r) => Came::Repo(*r),
            ChoreDone::Outcome(o) => Came::Outcome(o@),
            ChoreDone::Status(s) => Came::Status(*s),
            ChoreDone::Url(u) => Came::Url(opt_str(*u)),
        }
    }
}

pub open spec fn came(done: Seq<ChoreDone>) -> Seq<Came> {
    Seq::new(done.len(), |i: int| done[i]@)
}

/// What to print, and what to do after that.
#[derive(Debug)]
pub struct Turn {
    pub say: Vec<String>,
    pub next: Chore,
}

/// A [`Turn`] as a value.
#[verifier::ext_equal]
pub struct TurnView {
    pub say: Seq<Seq<char>>,
    pub next: Chore,
}

impl View for Turn {
    type V = TurnView;

    open spec fn view(&self) -> TurnView {
        TurnView { say: strs(self.say@), next: self.next }
    }
}

pub open spec fn wants_pull(command: Command) -> bool {
    command == Command::Sync || command == Command::Pull
}

pub open spec fn wants_push(command: Command) -> bool {
    command == Command::Sync || command == Command::Push
}

/// What to say of the state of the repo: where it is and how it stands, then
/// what to do about a missing remote, or that it could not be reached.
pub open spec fn standing(
    root: Seq<char>,
    created: bool,
    fetched: Outcome,
    status: SyncStatus,
    color: bool,
) -> Seq<Seq<char>> {
    let first = seq![details(root + " - "@ + status.says(), color)];
    if !status.has_remote {
        first.push(details(advice(root, created), color))
    } else {
        match fetched {
            Outcome::Idle(why) => first.push(
                details("(remote not reachable: "@ + why + ")"@, color),
            ),
            _ => first,
        }
    }
}

/// What a git subcommand does, from what came of it so far. Each one looks at
/// the repo's state first and only does the steps that state calls for, which is
/// what makes `sync` safe to run reflexively: with nothing waiting it says so
/// and touches nothing. Only `status` leaves a directory that is no repo as it
/// is. An answer to some other question ends it.
pub open spec fn chores(
    command: Command,
    root: Seq<char>,
    seeded: bool,
    color: bool,
    done: Seq<Came>,
) -> TurnView {
    let quiet = Seq::<Seq<char>>::empty();
    if done.len() == 0 {
        TurnView { say: quiet, next: Chore::AskRepo }
    } else if done[0] == Came::Repo(true) {
        looking(command, root, false, color, done, 1, quiet)
    } else if done[0] == Came::Repo(false) {
        if command == Command::Status {
            TurnView { say: seq![no_repo(root, color)], next: Chore::Finish }
        } else if done.len() == 1 {
            TurnView { say: quiet, next: Chore::Init }
        } else {
            match done[1] {
                Came::Outcome(o) => looking(
                    command,
                    root,
                    seeded,
                    color,
                    done,
                    2,
                    seq![step_line("init"@, o, color)],
                ),
                _ => TurnView { say: quiet, next: Chore::Finish },
            }
        }
    } else {
        TurnView { say: quiet, next: Chore::Finish }
    }
}

/// What `pinz status` says where there is no repo to report on.
pub open spec fn no_repo(root: Seq<char>, color: bool) -> Seq<char> {
    details(root + " - not a git repo yet"@, color)
}

/// Once there is a repo: ask the remote, then say how things stand.
pub open spec fn looking(
    command: Command,
    root: Seq<char>,
    created: bool,
    color: bool,
    done: Seq<Came>,
    at: int,
    said: Seq<Seq<char>>,
) -> TurnView {
    let quiet = Seq::<Seq<char>>::empty();
    if done.len() <= at {
        TurnView { say: said, next: Chore::Fetch }
    } else if done.len() <= at + 1 {
        TurnView { say: quiet, next: Chore::Status }
    } else {
        match (done[at], done[at + 1]) {
            (Came::Outcome(fetched), Came::Status(status)) => if done.len() == at + 2 {
                TurnView {
                    say: standing(root, created, fetched, status, color),
                    next: if wants_pull(command) {
                        Chore::Commit
                    } else if wants_push(command) {
                        Chore::Push
                    } else {
                        Chore::Finish
                    },
                }
            } else if wants_pull(command) {
                receiving(command, color, done, at + 2)
            } else if wants_push(command) {
                sending(color, done, at + 2)
            } else {
                TurnView { say: quiet, next: Chore::Finish }
            },
            _ => TurnView { say: quiet, next: Chore::Finish },
        }
    }
}

/// Bring the other machine's pins in. Checkpoint first: git will not pull over
/// uncommitted edits to a pin the other machine also changed.
pub open spec fn receiving(command: Command, color: bool, done: Seq<Came>, at: int) -> TurnView {
    let quiet = Seq::<Seq<char>>::empty();
    match done[at] {
        Came::Outcome(committed) => if done.len() == at + 1 {
            TurnView {
                say: if committed is Idle {
                    quiet
                } else {
                    seq![step_line("commit"@, committed, color)]
                },
                next: if committed is Stopped {
                    Chore::Finish
                } else {
                    Chore::Pull
                },
            }
        } else {
            match done[at + 1] {
                Came::Outcome(pulled) => if done.len() == at + 2 {
                    let line = seq![step_line("pull"@, pulled, color)];
                    if pulled is Stopped {
                        TurnView {
                            say: line.push(
                                details(
                                    "stopping here: resolve the conflict above before pushing."@,
                                    color,
                                ),
                            ),
                            next: Chore::Finish,
                        }
                    } else {
                        TurnView {
                            say: line,
                            next: if wants_push(command) {
                                Chore::Push
                            } else {
                                Chore::Finish
                            },
                        }
                    }
                } else {
                    sending(color, done, at + 2)
                },
                _ => TurnView { say: quiet, next: Chore::Finish },
            }
        },
        _ => TurnView { say: quiet, next: Chore::Finish },
    }
}

/// Push, and say where to. Only a push that actually moved something names a
/// destination: `nothing to sync` has no repo to point at, and a failure already
/// carries git's reason.
pub open spec fn sending(color: bool, done: Seq<Came>, at: int) -> TurnView {
    let quiet = Seq::<Seq<char>>::empty();
    match done[at] {
        Came::Outcome(Outcome::Done(what)) => if done.len() == at + 1 {
            TurnView { say: quiet, next: Chore::RemoteUrl }
        } else {
            match done[at + 1] {
                Came::Url(url) => TurnView {
                    say: seq![step_line("push"@, pushed(what, url, color), color)],
                    next: Chore::Finish,
                },
                _ => TurnView { say: quiet, next: Chore::Finish },
            }
        },
        Came::Outcome(other) => TurnView {
            say: seq![step_line("push"@, other, color)],
            next: Chore::Finish,
        },
        _ => TurnView { say: quiet, next: Chore::Finish },
    }
}

/// A push that worked, with the name of where it went.
pub open spec fn pushed(what: Seq<char>, url: Option<Seq<char>>, color: bool) -> Outcome {
    Outcome::Done(
        pushed_to(
            what,
            match url {
                Some(url) => Some(remote_name(url)),
                None => None,
            },
            color,
        ),
    )
}

fn finish() -> (t: Turn)
    ensures
        t@ == (TurnView { say: Seq::empty(), next: Chore::Finish }),
{
    quietly(Chore::Finish)
}

fn quietly(next: Chore) -> (t: Turn)
    ensures
        t@ == (TurnView { say: Seq::empty(), next }),
{
    let t = Turn { say: Vec::new(), next };
    proof {
        assert(t@.say =~= Seq::empty());
    }
    t
}

fn saying(line: String, next: Chore) -> (t: Turn)
    ensures
        t@ == (TurnView { say: seq![line@], next }),
{
    let mut say: Vec<String> = Vec::new();
    say.push(line);
    let t = Turn { say, next };
    proof {
        assert(t@.say =~= seq![line@]);
    }
    t
}

/// What a push says once it is known where it went.
pub fn push_report(what: &str, url: &Option<String>, color: bool) -> (line: String)
    ensures
        line@ == step_line("push"@, pushed(what@, opt_str(*url), color), color),
{
    let message = match url {
        Some(url) => push_message(what, Some(short_remote(url).as_str()), color),
        None => push_message(what, None, color),
    };
    report_line("push", &SyncOutcome::Done(message), color)
}

fn send(color: bool, done: &[ChoreDone], at: usize) -> (t: Turn)
    requires
        at < done@.len(),
    ensures
        t@ == sending(color, came(done@), at as int),
{
    match &done[at] {
        ChoreDone::Outcome(SyncOutcome::Done(what)) => {
            if done.len() == at + 1 {
                return quietly(Chore::RemoteUrl);
            }
            match &done[at + 1] {
                ChoreDone::Url(url) => saying(push_report(what, url, color), Chore::Finish),
                _ => finish(),
            }
        },
        ChoreDone::Outcome(other) => saying(report_line("push", other, color), Chore::Finish),
        _ => finish(),
    }
}

fn receive(command: Command, color: bool, done: &[ChoreDone], at: usize) -> (t: Turn)
    requires
        at < done@.len(),
    ensures
        t@ == receiving(command, color, came(done@), at as int),
{
    let committed = match &done[at] {
        ChoreDone::Outcome(o) => o,
        _ => return finish(),
    };
    if done.len() == at + 1 {
        return match committed {
            SyncOutcome::Idle(_) => quietly(Chore::Pull),
            SyncOutcome::Done(_) => saying(report_line("commit", committed, color), Chore::Pull),
            SyncOutcome::Stopped(_) => saying(
                report_line("commit", committed, color),
                Chore::Finish,
            ),
        };
    }
    let pulled = match &done[at + 1] {
        ChoreDone::Outcome(o) => o,
        _ => return finish(),
    };
    if done.len() > at + 2 {
        return send(color, done, at + 2);
    }
    let line = report_line("pull", pulled, color);
    if pulled.is_stopped() {
        let mut t = saying(line, Chore::Finish);
        t.say.push(
            detail_line("stopping here: resolve the conflict above before pushing.", color),
        );
        return t;
    }
    saying(
        line,
        if command == Command::Sync || command == Command::Push {
            Chore::Push
        } else {
            Chore::Finish
        },
    )
}

fn say_standing(
    root: &str,
    created: bool,
    fetched: &SyncOutcome,
    status: &SyncStatus,
    color: bool,
) -> (say: Vec<String>)
    ensures
        strs(say@) == standing(root@, created, fetched@, *status, color),
{
    let mut say: Vec<String> = Vec::new();
    let mut line = chars_of(root);
    push_text(&mut line, " - ");
    push_text(&mut line, &status.summary());
    proof {
        assert(line@ =~= root@ + " - "@ + status.says());
    }
    say.push(detail_line(&string_of(&line), color));
    proof {
        assert(strs(say@) =~= seq![details(root@ + " - "@ + status.says(), color)]);
    }
    if !status.has_remote {
        say.push(detail_line(&remote_advice(root, created), color));
    } else if let SyncOutcome::Idle(why) = fetched {
        let mut note = chars_of("(remote not reachable: ");
        push_text(&mut note, why);
        push_text(&mut note, ")");
        proof {
            assert(note@ =~= "(remote not reachable: "@ + why@ + ")"@);
        }
        say.push(detail_line(&string_of(&note), color));
    }
    say
}

fn look(
    command: Command,
    root: &str,
    created: bool,
    color: bool,
    done: &[ChoreDone],
    at: usize,
) -> (t: Turn)
    requires
        at < done@.len(),
    ensures
        t@ == looking(command, root@, created, color, came(done@), at as int, Seq::empty()),
{
    if done.len() == at + 1 {
        return quietly(Chore::Status);
    }
    match (&done[at], &done[at + 1]) {
        (ChoreDone::Outcome(fetched), ChoreDone::Status(status)) => {
            let pull = command == Command::Sync || command == Command::Pull;
            let push = command == Command::Sync || command == Command::Push;
            if done.len() == at + 2 {
                return Turn {
                    say: say_standing(root, created, fetched, status, color),
                    next: if pull {
                        Chore::Commit
                    } else if push {
                        Chore::Push
                    } else {
                        Chore::Finish
                    },
                };
            }
            if pull {
                receive(command, color, done, at + 2)
            } else if push {
                send(color, done, at + 2)
            } else {
                finish()
            }
        },
        _ => finish(),
    }
}

/// The git-facing subcommands. Syncing pins is pinz's own job, not something
/// bolted onto another tool's sync, so they all live here.
///
/// `seeded` says that the pin directory was empty and got its first board. With
/// no repo there either, this run conjured the board out of nothing, which is
/// worth saying out loud: it is the state someone lands in when they run the
/// first-machine setup on a machine whose pins are really somewhere else.
pub fn git_command(
    command: Command,
    root: &str,
    seeded: bool,
    color: bool,
    done: &[ChoreDone],
) -> (t: Turn)
    ensures
        t@ == chores(command, root@, seeded, color, came(done@)),
{
    if done.len() == 0 {
        return quietly(Chore::AskRepo);
    }
    match &done[0] {
        ChoreDone::Repo(true) => {
            if done.len() == 1 {
                return quietly(Chore::Fetch);
            }
            look(command, root, false, color, done, 1)
        },
        ChoreDone::Repo(false) => {
            if command == Command::Status {
                let line = crate::git::glued(root, " - not a git repo yet");
                return saying(detail_line(&line, color), Chore::Finish);
            }
            if done.len() == 1 {
                return quietly(Chore::Init);
            }
            match &done[1] {
                ChoreDone::Outcome(o) => {
                    if done.len() == 2 {
                        return saying(report_line("init", o, color), Chore::Fetch);
                    }
                    look(command, root, seeded, color, done, 2)
                },
                _ => finish(),
            }
        },
        _ => finish(),
    }
}

/// Whether a subcommand gives a pin directory its first board: an empty one gets
/// it, but not from `pinz status`, which changes nothing.
pub fn seeds(command: Command, empty: bool) -> (r: bool)
    ensures
        r == (empty && command != Command::Status),
{
    empty && command != Command::Status
}

/// `pinz status` reports what is waiting and changes nothing: all it does is ask.
pub proof fn law_status_changes_nothing(
    root: Seq<char>,
    seeded: bool,
    color: bool,
    done: Seq<Came>,
)
    ensures
        ({
            let next = chores(Command::Status, root, seeded, color, done).next;
            next is AskRepo || next is Fetch || next is Status || next is Finish
        }),
{
}

/// `pinz pull` never pushes, and `pinz push` never pulls.
pub proof fn law_half_a_sync_is_half(root: Seq<char>, seeded: bool, color: bool, done: Seq<Came>)
    ensures
        chores(Command::Pull, root, seeded, color, done).next != Chore::Push,
        chores(Command::Push, root, seeded, color, done).next != Chore::Pull,
{
}

/// Nothing is pushed on top of a pull that stopped: the run ends there.
pub proof fn law_a_stopped_pull_ends_the_run(
    command: Command,
    root: Seq<char>,
    seeded: bool,
    color: bool,
    done: Seq<Came>,
    pulled: Outcome,
)
    requires
        chores(command, root, seeded, color, done).next == Chore::Pull,
        pulled is Stopped,
    ensures
        chores(command, root, seeded, color, done.push(Came::Outcome(pulled))).next
            == Chore::Finish,
{
    let more = done.push(Came::Outcome(pulled));
    assert(forall|i: int| 0 <= i < done.len() ==> #[trigger] more[i] == done[i]);
    assert(more[done.len() as int] == Came::Outcome(pulled));
}

// ---- opening the board ----

/// What a run of the board knows before it opens: who owns it, whether git is to
/// be touched, and why a pull stopped, if it did.
#[derive(Debug)]
pub struct Session {
    /// Another pinz that owns the board.
    pub busy_pid: Option<u32>,
    /// Whether to sync at all.
    pub sync: bool,
    /// Why the pull at the start stopped.
    pub stop: Option<String>,
}

/// The warning of a session that may not write.
pub open spec fn read_only_warning(pid: u32) -> Seq<char> {
    "read-only: pinz "@ + decimal(pid as nat)
        + " owns this board - changes will not be saved"@
}

/// The first board with a name.
pub open spec fn world_named(boards: Seq<BoardView>, name: Seq<char>, i: int) -> Option<int>
    decreases boards.len() - i,
{
    if i < 0 || i >= boards.len() {
        None
    } else if boards[i].name == name {
        Some(i)
    } else {
        world_named(boards, name, i + 1)
    }
}

/// The app on the world that was open last, or on the first where there is no
/// such world.
pub open spec fn on_world(s: AppState, world: Option<Seq<char>>) -> AppState {
    match world {
        Some(name) => match world_named(s.boards, name, 0) {
            Some(i) => AppState { active: i as usize, ..s },
            None => s,
        },
        None => s,
    }
}

/// The boards to open: what was loaded, or the first world where that is none.
pub open spec fn to_open(loaded: Seq<BoardView>) -> Seq<BoardView> {
    if loaded.len() == 0 {
        seq![first_world()]
    } else {
        loaded
    }
}

/// The app as a session opens it.
pub open spec fn opened_app(
    loaded: Seq<BoardView>,
    busy_pid: Option<u32>,
    stop: Option<Seq<char>>,
    theme: Option<Seq<char>>,
    last_world: Option<Seq<char>>,
) -> AppState {
    let fresh = on_world(AppState::opened(to_open(loaded)), last_world);
    let owned = match busy_pid {
        Some(pid) => AppState {
            read_only: true,
            warning: Some(read_only_warning(pid)),
            ..fresh
        },
        None => fresh,
    };
    let warned = match stop {
        Some(stop) => AppState { warning: Some(stop + " - local-only this run"@), ..owned },
        None => owned,
    };
    match theme {
        Some(name) => warned.set_theme_by_name(name),
        None => warned,
    }
}

impl Session {
    /// A session, once it is known who owns the board. One that may not write
    /// runs no git at all: it has nothing to commit, and pulling under the
    /// owner's feet would change files it is working on.
    pub fn begin(sync: bool, busy_pid: Option<u32>) -> (s: Session)
        ensures
            s.busy_pid == busy_pid,
            s.sync == (sync && busy_pid is None),
            s.stop is None,
    {
        Session { busy_pid, sync: sync && busy_pid.is_none(), stop: None }
    }

    /// The pull at the start came to this. One that stopped leaves local files
    /// untouched and only costs the push on exit.
    pub fn pulled(&mut self, outcome: &SyncOutcome)
        ensures
            final(self).busy_pid == old(self).busy_pid,
            final(self).sync == old(self).sync,
            opt_str(final(self).stop) == (if outcome@ is Stopped {
                Some(outcome@.says())
            } else {
                opt_str(old(self).stop)
            }),
    {
        if outcome.is_stopped() {
            self.stop = Some(outcome.message().to_owned());
        }
    }

    /// Open the board.
    pub fn open(
        &self,
        loaded: Vec<Board>,
        theme: Option<&str>,
        last_world: Option<&str>,
    ) -> (app: App)
        requires
            crate::state::top_id_on(boards_view(loaded@), loaded@.len() as int) < u64::MAX,
        ensures
            app@ == opened_app(
                boards_view(loaded@),
                self.busy_pid,
                opt_str(self.stop),
                crate::merge::opt_text(theme),
                crate::merge::opt_text(last_world),
            ),
            app@.wf(),
    {
        let ghost was = boards_view(loaded@);
        let mut boards = loaded;
        if boards.len() == 0 {
            boards.push(first_board());
            proof {
                assert(boards_view(boards@) =~= seq![first_world()]);
                reveal_with_fuel(crate::state::top_id_on, 2);
                reveal_with_fuel(crate::state::top_id, 2);
            }
        }
        proof {
            assert(boards_view(boards@) =~= to_open(was));
        }
        let mut app = App::new(boards);
        if let Some(name) = last_world {
            app.open_on(name);
        }
        if let Some(pid) = self.busy_pid {
            let mut warning = chars_of("read-only: pinz ");
            push_decimal(&mut warning, pid as u64);
            push_text(&mut warning, " owns this board - changes will not be saved");
            proof {
                assert(warning@ =~= read_only_warning(pid));
            }
            app.set_read_only(true);
            app.set_warning(string_of(&warning));
        }
        if let Some(stop) = &self.stop {
            app.set_warning(crate::git::glued(stop, " - local-only this run"));
        }
        if let Some(name) = theme {
            app.set_theme_by_name(name);
        }
        app
    }
}

impl App {
    /// Open on the world with a name, where there is one.
    pub fn open_on(&mut self, world: &str)
        requires
            old(self)@.wf(),
        ensures
            final(self)@ == on_world(old(self)@, Some(world@)),
            final(self)@.wf(),
    {
        let ghost s = self@;
        let mut i: usize = 0;
        while i < self.boards.len()
            invariant
                i <= self.boards@.len(),
                self@ == s,
                s == old(self)@,
                s.wf(),
                world_named(s.boards, world@, 0) == world_named(s.boards, world@, i as int),
            decreases self.boards@.len() - i,
        {
            if crate::text::same_str(&self.boards[i].name, world) {
                self.active = i;
                return;
            }
            i += 1;
        }
    }
}

// ---- while the board is open ----

/// What to do before the next event: stop, wait for one, or look for one within
/// a frame because something is moving.
#[derive(Debug, Clone, Copy, PartialEq, Eq, Structural)]
pub enum Wait {
    Quit,
    Block,
    Poll,
}

/// A frame budget for the one thing that animates, in milliseconds.
pub const FRAME: u64 = 16;

/// The loop **blocks** for input, which is what keeps pinz at zero CPU sitting
/// open on a desk: the board changes only in response to input, so a redraw per
/// event is enough. The one exception is while the camera is travelling to a
/// jump's destination, when it polls at a frame budget and advances the
/// animation instead. Idle still means idle, because idle means nothing is
/// moving.
pub fn wait(app: &App) -> (w: Wait)
    ensures
        w == (if app@.should_quit {
            Wait::Quit
        } else if app@.glide is Some {
            Wait::Poll
        } else {
            Wait::Block
        }),
{
    if app.should_quit() {
        Wait::Quit
    } else if app.animating() {
        Wait::Poll
    } else {
        Wait::Block
    }
}

/// Whether to write the boards now. Persist as you work, but never mid-gesture:
/// a drag would otherwise rewrite the pin's file on every mouse-move. A
/// read-only session never writes at all.
pub fn due(app: &App, saved: u64) -> (r: bool)
    ensures
        r == (!app@.read_only && app@.revision != saved && app@.drag is None),
{
    !app.read_only() && app.revision() != saved && !app.is_dragging()
}

/// What an event does to the app.
pub open spec fn applied(s: AppState, e: Event) -> AppState {
    match e {
        Event::Key { key, kind } => if kind == KeyEventKind::Press {
            s.on_key(key)
        } else {
            s
        },
        Event::Mouse(m) => s.on_mouse(m),
        Event::Paste(text) => s.on_paste(text@),
        Event::Other => s,
    }
}

/// Route one terminal event into the app. Only key presses count, not a release
/// or a repeat where the terminal reports them, so a keystroke fires once.
///
/// Says whether it did: an app that has run out of room for another change is
/// left as it is.
pub fn apply(app: &mut App, event: Event) -> (r: bool)
    requires
        old(app)@.wf(),
    ensures
        r == old(app)@.has_room(),
        final(app)@ == (if r {
            applied(old(app)@, event)
        } else {
            old(app)@
        }),
        final(app)@.wf(),
{
    if !app.has_room() {
        return false;
    }
    match event {
        Event::Key { key, kind } => {
            if kind == KeyEventKind::Press {
                app.on_key(key);
            }
        },
        Event::Mouse(m) => app.on_mouse(m),
        Event::Paste(text) => app.on_paste(text),
        Event::Other => {},
    }
    true
}

/// Hand any text the app queued to the terminal's clipboard, once. What is too
/// long is reported in the footer rather than ending the session - losing a
/// copy is annoying, losing the board is not acceptable.
pub fn deliver_copy(out: &mut Vec<u8>, app: &mut App)
    ensures
        match old(app)@.pending_copy {
            None => final(out)@ == old(out)@ && final(app)@ == old(app)@,
            Some(text) => {
                let taken = AppState { pending_copy: None, ..old(app)@ };
                let bytes = vstd::utf8::encode_utf8(text).len();
                if bytes <= MAX_BYTES {
                    &&& final(out)@ == old(out)@ + vstd::utf8::encode_utf8(escape(text))
                    &&& final(app)@ == taken
                } else {
                    &&& final(out)@ == old(out)@
                    &&& final(app)@ == taken.with_status(
                        "copy failed: "@ + (CopyError::TooMuch { bytes: bytes as usize }).says(),
                    )
                }
            },
        },
{
    let ghost before = app@;
    match app.take_pending_copy() {
        None => {
            proof {
                assert(app@ =~= before);
            }
        },
        Some(text) => {
            match clipboard::copy(out, &text) {
                Ok(()) => {},
                Err(e) => {
                    copy_failed(app, &e.message());
                },
            }
        },
    }
}

/// Say in the footer that a copy did not reach the terminal.
pub fn copy_failed(app: &mut App, why: &str)
    ensures
        final(app)@ == old(app)@.with_status("copy failed: "@ + why@),
{
    app.set_status(crate::git::glued("copy failed: ", why));
}

/// Whether a deletion that came to this stops the save. A world that never
/// reached the store - made and deleted in one session - is not there to remove,
/// and that is no reason to fail.
pub fn deletion_failed(deleted: Result<(), StoreError>) -> (e: Option<StoreError>)
    ensures
        match deleted {
            Ok(()) => e is None,
            Err(StoreError::NotFound(_)) => e is None,
            Err(StoreError::Backend(m)) => e == Some(StoreError::Backend(m)),
        },
{
    match deleted {
        Ok(()) => None,
        Err(StoreError::NotFound(_)) => None,
        Err(e) => Some(e),
    }
}

/// Asking for every one of a list of worlds to be removed.
pub open spec fn asked_to_drop(names: Seq<Seq<char>>) -> Seq<StoreCall> {
    Seq::new(names.len(), |i: int| StoreCall::Drop(names[i]))
}

/// What a store is asked when an app is written to it: to remove each world the
/// app dropped, then to keep what is left, then to remember which world is open.
pub open spec fn asked_to_keep(s: AppState) -> Seq<StoreCall> {
    asked_to_drop(s.pending_deletes).push(StoreCall::Save(s.boards)).push(
        StoreCall::OpenWorld(s.board().name),
    )
}

/// An answer that ends it: a failure, but for a world to be removed that is not
/// there.
pub open spec fn stops(call: StoreCall, answer: StoreAnswer) -> bool {
    answer matches StoreAnswer::Failed(why) && !(call is Drop && why is NotFound)
}

/// A plan that went as far as `answers` say, and came to `out`: the first answer
/// that ends it is the outcome and the last thing heard; with none, everything
/// was asked for and the outcome is the report of the save.
pub open spec fn came_to(
    plan: Seq<StoreCall>,
    answers: Seq<StoreAnswer>,
    out: Result<SaveReport, StoreError>,
) -> bool {
    &&& 2 <= plan.len()
    &&& 1 <= answers.len() <= plan.len()
    &&& forall|i: int|
        0 <= i < answers.len() - 1 ==> !stops(#[trigger] plan[i], answers[i])
    &&& match out {
        Ok(_) => answers.len() == plan.len() && !stops(plan.last(), answers.last())
            && answers[plan.len() - 2] == save_answer(out),
        Err(e) => stops(plan[answers.len() - 1], answers.last()) && answers.last()
            == StoreAnswer::Failed(e@),
    }
}

/// What a store was asked and what it answered, since `asked` and `answered`, is a
/// plan that came to `out`.
pub open spec fn carried_out(
    plan: Seq<StoreCall>,
    asked: Seq<StoreCall>,
    answered: Seq<StoreAnswer>,
    asked_after: Seq<StoreCall>,
    answered_after: Seq<StoreAnswer>,
    out: Result<SaveReport, StoreError>,
) -> bool {
    let answers = answered_after.skip(answered.len() as int);
    &&& answered_after == answered + answers
    &&& asked_after == asked + plan.take(answers.len() as int)
    &&& came_to(plan, answers, out)
}

/// Remove the worlds the app dropped, then write what is left, and which world
/// is open.
///
/// Deletes first: a save writes every board it is handed, so doing it the other
/// way round would recreate a directory we are about to remove. A failure stops
/// there: it is the outcome, and nothing after it is asked for. Otherwise the
/// outcome is the store's own report of the save.
pub fn persist<S: Store>(app: &mut App, store: &mut S) -> (out: Result<SaveReport, StoreError>)
    requires
        old(app)@.wf(),
    ensures
        final(app)@ == (AppState { pending_deletes: Seq::empty(), ..old(app)@ }),
        S::faithful() ==> out is Ok && out->Ok_0.skipped@.len() == 0 && final(store).kept()
            == old(app)@.boards,
        S::accounts() ==> carried_out(
            asked_to_keep(old(app)@),
            old(store).asked(),
            old(store).answered(),
            final(store).asked(),
            final(store).answered(),
            out,
        ),
{
    let ghost s = app@;
    let ghost asked = store.asked();
    let ghost answered = store.answered();
    let ghost plan = asked_to_keep(s);
    let ghost mut answers: Seq<StoreAnswer> = Seq::empty();
    let names = app.take_pending_deletes();
    let mut i: usize = 0;
    proof {
        assert(asked + plan.take(0) =~= asked);
        assert(answered + answers =~= answered);
    }
    while i < names.len()
        invariant
            i <= names@.len(),
            s == old(app)@,
            asked == old(store).asked(),
            answered == old(store).answered(),
            plan == asked_to_keep(s),
            strs(names@) == s.pending_deletes,
            app@ == (AppState { pending_deletes: Seq::empty(), ..s }),
            s.wf(),
            answers.len() == i,
            S::accounts() ==> store.asked() == asked + plan.take(i as int),
            S::accounts() ==> store.answered() == answered + answers,
            forall|k: int| 0 <= k < i ==> !stops(#[trigger] plan[k], answers[k]),
        decreases names@.len() - i,
    {
        let deleted = store.delete_board(&names[i]);
        proof {
            assert(strs(names@)[i as int] == names@[i as int]@);
            assert(plan[i as int] == StoreCall::Drop(names@[i as int]@));
            lemma_one_more(asked, plan, answered, answers, answer(deleted));
            answers = answers.push(answer(deleted));
        }
        if let Some(e) = deletion_failed(deleted) {
            proof {
                assert((answered + answers).skip(answered.len() as int) =~= answers);
            }
            return Err(e);
        }
        i += 1;
    }
    let ghost n: int = names@.len() as int;
    proof {
        assert(s.pending_deletes.len() == n);
        assert(plan[n] == StoreCall::Save(s.boards));
        assert(plan[n + 1] == StoreCall::OpenWorld(s.board().name));
    }
    let kept = store.save(app.boards());
    proof {
        lemma_one_more(asked, plan, answered, answers, save_answer(kept));
        answers = answers.push(save_answer(kept));
    }
    let report = match kept {
        Ok(report) => report,
        Err(e) => {
            proof {
                assert((answered + answers).skip(answered.len() as int) =~= answers);
            }
            return Err(e);
        },
    };
    let recorded = store.save_last_world(&app.active_board().name);
    proof {
        lemma_one_more(asked, plan, answered, answers, answer(recorded));
        answers = answers.push(answer(recorded));
        assert((answered + answers).skip(answered.len() as int) =~= answers);
    }
    match recorded {
        Ok(()) => Ok(report),
        Err(e) => Err(e),
    }
}

/// One more thing asked, one more answer.
proof fn lemma_one_more(
    asked: Seq<StoreCall>,
    plan: Seq<StoreCall>,
    answered: Seq<StoreAnswer>,
    answers: Seq<StoreAnswer>,
    more: StoreAnswer,
)
    requires
        answers.len() < plan.len(),
    ensures
        asked + plan.take(answers.len() as int + 1) == (asked + plan.take(answers.len() as int)).push(
            plan[answers.len() as int],
        ),
        answered + answers.push(more) == (answered + answers).push(more),
{
    let n = answers.len() as int;
    assert(asked + plan.take(n + 1) =~= (asked + plan.take(n)).push(plan[n]));
    assert(answered + answers.push(more) =~= (answered + answers).push(more));
}

// ---- closing the board ----

/// What a session does once the terminal is its own again.
#[derive(Debug)]
pub struct Closing {
    /// What went wrong, to print line by line.
    pub problems: Vec<String>,
    /// Whether to push.
    pub push: bool,
    /// Why the pull at the start stopped, to print once more where it lasts.
    pub stop: Option<String>,
}

/// What a failure to write pins is reported as, if there was one.
pub open spec fn refused(why: Option<Seq<char>>) -> Seq<Seq<char>> {
    match why {
        Some(why) => seq!["could not write pins: "@ + why],
        None => Seq::empty(),
    }
}

impl Session {
    /// Whether to save once more at the end, to catch anything the loop
    /// deferred (a quit mid-drag).
    pub fn saves_at_the_end(&self) -> (r: bool)
        ensures
            r == (self.busy_pid is None),
    {
        self.busy_pid.is_none()
    }

    /// The session is over. `save_error` is what ended the loop, if a save did;
    /// `last_error` is what the last save came to.
    ///
    /// A session whose last save failed says so and does nothing more. A pull
    /// that stopped, or a save that failed, costs the push: what would be sent
    /// is not what is on the board.
    pub fn close(&self, save_error: Option<&str>, last_error: Option<&str>) -> (c: Closing)
        ensures
            strs(c.problems@) == refused(crate::merge::opt_text(save_error)) + refused(
                crate::merge::opt_text(last_error),
            ),
            c.push == (self.sync && self.stop is None && save_error is None && last_error is None),
            opt_str(c.stop) == (if last_error is Some {
                None
            } else {
                opt_str(self.stop)
            }),
    {
        let mut problems: Vec<String> = Vec::new();
        if let Some(e) = save_error {
            problems.push(crate::git::glued("could not write pins: ", e));
        }
        if let Some(e) = last_error {
            problems.push(crate::git::glued("could not write pins: ", e));
        }
        proof {
            assert(strs(problems@) =~= refused(crate::merge::opt_text(save_error)) + refused(
                crate::merge::opt_text(last_error),
            ));
        }
        Closing {
            problems,
            push: self.sync && self.stop.is_none() && save_error.is_none() && last_error.is_none(),
            stop: if last_error.is_some() {
                None
            } else {
                crate::disk::copy_text(&self.stop)
            },
        }
    }
}

/// A session whose board another pinz owns opens read-only and says so, whatever
/// else there is to warn of.
pub proof fn law_a_second_session_reads(
    loaded: Seq<BoardView>,
    pid: u32,
    stop: Option<Seq<char>>,
    theme: Option<Seq<char>>,
    last_world: Option<Seq<char>>,
)
    ensures
        opened_app(loaded, Some(pid), stop, theme, last_world).read_only,
        opened_app(loaded, Some(pid), stop, theme, last_world).warning is Some,
{
}

/// A sync does all of it, in order: with what changed here committed it brings the
/// other side in, and only then sends; a pull alone does not send, and a push alone
/// does nothing first. Where one step has to stop, so does the run.
pub proof fn law_a_sync_goes_in_order(
    command: Command,
    root: Seq<char>,
    seeded: bool,
    color: bool,
    done: Seq<Came>,
    o: Outcome,
    status: SyncStatus,
)
    ensures
        ({
            let now = chores(command, root, seeded, color, done).next;
            let after = chores(command, root, seeded, color, done.push(Came::Outcome(o))).next;
            let seen = chores(command, root, seeded, color, done.push(Came::Status(status))).next;
            let looked_at = now is Status && done.last() is Outcome;
            &&& now is Fetch ==> after is Status
            &&& looked_at && command == Command::Sync ==> seen is Commit
            &&& looked_at && command == Command::Pull ==> seen is Commit
            &&& looked_at && command == Command::Push ==> seen is Push
            &&& looked_at && command == Command::Status ==> seen is Finish
            &&& now is Commit && !(o is Stopped) ==> after is Pull
            &&& now is Commit && o is Stopped ==> after is Finish
            &&& now is Pull && !(o is Stopped) && command == Command::Sync ==> after is Push
            &&& now is Pull && !(o is Stopped) && command == Command::Pull ==> after is Finish
            &&& now is Push && o is Done ==> after is RemoteUrl
            &&& now is Push && !(o is Done) ==> after is Finish
        }),
{
    let more = done.push(Came::Outcome(o));
    let looked = done.push(Came::Status(status));
    assert(forall|i: int| 0 <= i < done.len() ==> #[trigger] more[i] == done[i]);
    assert(forall|i: int| 0 <= i < done.len() ==> #[trigger] looked[i] == done[i]);
    assert(more[done.len() as int] == Came::Outcome(o));
    assert(looked[done.len() as int] == Came::Status(status));
}

/// A directory that is no repo is made one first, by any command but `status`; and a
/// repo is looked at as it is.
pub proof fn law_a_run_starts_with_the_repo(
    command: Command,
    root: Seq<char>,
    seeded: bool,
    color: bool,
    o: Outcome,
)
    ensures
        chores(command, root, seeded, color, seq![]).next is AskRepo,
        chores(command, root, seeded, color, seq![Came::Repo(true)]).next is Fetch,
        command != Command::Status ==> chores(
            command,
            root,
            seeded,
            color,
            seq![Came::Repo(false)],
        ).next is Init,
        command == Command::Status ==> chores(
            command,
            root,
            seeded,
            color,
            seq![Came::Repo(false)],
        ).next is Finish,
        command != Command::Status ==> chores(
            command,
            root,
            seeded,
            color,
            seq![Came::Repo(false), Came::Outcome(o)],
        ).next is Fetch,
{
}

proof fn lemma_world_named(boards: Seq<BoardView>, name: Seq<char>, i: int)
    requires
        0 <= i <= boards.len(),
    ensures
        match world_named(boards, name, i) {
            Some(k) => i <= k < boards.len() && boards[k].name == name,
            None => forall|k: int| i <= k < boards.len() ==> (#[trigger] boards[k]).name != name,
        },
    decreases boards.len() - i,
{
    if i < boards.len() && boards[i].name != name {
        lemma_world_named(boards, name, i + 1);
    }
}

/// A session opens on what was loaded, all of it and nothing else, or on the first
/// world where there is nothing yet; on the world that was open last, if it is still
/// there, and otherwise on the first; with nothing selected, nothing to undo, and
/// read-only exactly where another session owns the board.
pub proof fn law_how_a_session_opens(
    loaded: Seq<BoardView>,
    busy_pid: Option<u32>,
    stop: Option<Seq<char>>,
    theme: Option<Seq<char>>,
    last_world: Option<Seq<char>>,
)
    requires
        loaded.len() <= usize::MAX,
    ensures
        ({
            let s = opened_app(loaded, busy_pid, stop, theme, last_world);
            &&& loaded.len() > 0 ==> s.boards == loaded
            &&& loaded.len() == 0 ==> s.boards == seq![first_world()]
            &&& s.active < s.boards.len()
            &&& last_world matches Some(name) ==> (exists|i: int|
                0 <= i < loaded.len() && (#[trigger] loaded[i]).name == name) ==> s.board().name
                == name
            &&& last_world is None ==> s.active == 0
            &&& last_world matches Some(name) ==> (forall|i: int|
                0 <= i < s.boards.len() ==> (#[trigger] s.boards[i]).name != name) ==> s.active == 0
            &&& s.read_only <==> busy_pid is Some
            &&& s.selected is None && s.mode == crate::state::Mode::Nav && s.undo.len() == 0
                && s.redo.len() == 0 && s.drag is None && !s.should_quit
            &&& stop is Some || busy_pid is Some <==> s.warning is Some
        }),
{
    let boards = to_open(loaded);
    if let Some(name) = last_world {
        lemma_world_named(boards, name, 0);
        if exists|i: int| 0 <= i < loaded.len() && (#[trigger] loaded[i]).name == name {
            let i = choose|i: int| 0 <= i < loaded.len() && (#[trigger] loaded[i]).name == name;
            assert(boards[i].name == name);
        }
        if world_named(boards, name, 0) is Some {
            let k = world_named(boards, name, 0)->0;
            assert(boards[k].name == name);
        }
    }
}

/// A session opens in the first theme that goes by the name asked for, and in the
/// first of all where none does or none is asked for.
pub proof fn law_a_session_opens_in_its_theme(
    loaded: Seq<BoardView>,
    busy_pid: Option<u32>,
    stop: Option<Seq<char>>,
    theme: Option<Seq<char>>,
    last_world: Option<Seq<char>>,
    i: int,
)
    requires
        0 <= i < 5,
    ensures
        ({
            let s = opened_app(loaded, busy_pid, stop, theme, last_world);
            &&& theme is None ==> s.theme_index == 0
            &&& theme matches Some(name) ==> (forall|k: int|
                0 <= k < 5 ==> !#[trigger] crate::theme::answers_to(k, name)) ==> s.theme_index == 0
            &&& theme matches Some(name) ==> crate::theme::answers_to(i, name) && (forall|k: int|
                0 <= k < i ==> !#[trigger] crate::theme::answers_to(k, name)) ==> s.theme_index == i
        }),
{
    if let Some(name) = theme {
        crate::theme::law_the_first_theme_that_answers(name, 0);
        if let Some(j) = crate::theme::theme_named(name, 0) {
            assert(crate::theme::answers_to(j, name));
        }
    }
}

/// Worlds that were deleted go first, each of them; the boards are written after that,
/// all of them as they are; and last comes the world that is open.
pub proof fn law_deletions_come_before_the_save(s: AppState, i: int)
    ensures
        ({
            let plan = asked_to_keep(s);
            let n = s.pending_deletes.len() as int;
            &&& plan.len() == n + 2
            &&& 0 <= i < n ==> plan[i] == StoreCall::Drop(s.pending_deletes[i])
            &&& plan[n] == StoreCall::Save(s.boards)
            &&& plan[n + 1] == StoreCall::OpenWorld(s.board().name)
        }),
{
}

/// A plan is carried out to the end or ends at the first failure, and says which: with
/// no failure everything was asked for, and with one nothing after it was. A world to
/// be removed that is already gone is no failure.
pub proof fn law_no_failure_is_passed_over(
    plan: Seq<StoreCall>,
    answers: Seq<StoreAnswer>,
    out: Result<SaveReport, StoreError>,
    i: int,
)
    requires
        came_to(plan, answers, out),
        0 <= i < answers.len(),
    ensures
        out is Ok ==> answers.len() == plan.len(),
        out is Ok && answers[i] is Failed ==> plan[i] is Drop && answers[i]->Failed_0 is NotFound,
        out is Err && i < answers.len() - 1 && answers[i] is Failed ==> plan[i] is Drop
            && answers[i]->Failed_0 is NotFound,
        out matches Err(e) ==> answers.last() == StoreAnswer::Failed(e@),
{
    assert(i < answers.len() - 1 ==> !stops(plan[i], answers[i]));
}

/// Of what a terminal reports of a key only the press does anything.
pub proof fn law_only_a_press_counts(s: AppState, e: Event)
    ensures
        e is Other ==> applied(s, e) == s,
        (e matches Event::Key { key, kind } && kind != KeyEventKind::Press) ==> applied(s, e) == s,
        e matches Event::Key { key, kind } ==> kind == KeyEventKind::Press ==> applied(s, e)
            == s.on_key(key),
        e matches Event::Paste(text) ==> applied(s, e) == s.on_paste(text@),
        e matches Event::Mouse(m) ==> applied(s, e) == s.on_mouse(m),
{
}

} // verus!

//! Syncing with git, against a git that answers from a script.

use pinz::git::{first_line, Next, Reply, SyncOutcome, SyncStatus};
use pinz::sync::{clone_into, Asking, Sync};

fn ok(stdout: &str) -> Reply {
    Reply::Ran {
        ok: true,
        stdout: stdout.to_string(),
        stderr: String::new(),
    }
}

fn fails(stderr: &str) -> Reply {
    Reply::Ran {
        ok: false,
        stdout: String::new(),
        stderr: stderr.to_string(),
    }
}

fn missing() -> Reply {
    Reply::NotRun {
        why: "No such file or directory".to_string(),
    }
}

/// A git that answers each command line from a list, taking a line's answers in
/// order and repeating its last. What it is not told of fails.
struct Git {
    answers: Vec<(String, Vec<Reply>)>,
    asked: Vec<String>,
    written: Vec<(String, String)>,
}

impl Git {
    fn new(answers: &[(&str, &[Reply])]) -> Self {
        Git {
            answers: answers
                .iter()
                .map(|(line, replies)| (line.to_string(), replies.to_vec()))
                .collect(),
            asked: Vec::new(),
            written: Vec::new(),
        }
    }

    fn run(&mut self, args: &[String]) -> Reply {
        let line = args.join(" ");
        self.asked.push(line.clone());
        assert!(self.asked.len() < 200, "git is asked forever: {:?}", self.asked);
        match self.answers.iter_mut().find(|(l, _)| *l == line) {
            Some((_, replies)) if replies.len() > 1 => replies.remove(0),
            Some((_, replies)) => replies[0].clone(),
            None => fails("unknown command"),
        }
    }

    /// Carry a plan out to its end.
    fn finish(&mut self, next: &dyn Fn(&[Reply]) -> Next) -> SyncOutcome {
        let mut replies: Vec<Reply> = Vec::new();
        loop {
            match next(&replies) {
                Next::Run(args) => {
                    let reply = self.run(&args);
                    replies.push(reply);
                }
                Next::Write { file, text } => {
                    self.written.push((file, text));
                    replies.push(ok(""));
                }
                Next::Finish(outcome) => return outcome,
            }
        }
    }

    fn status(&mut self, sync: &Sync) -> SyncStatus {
        let mut replies: Vec<Reply> = Vec::new();
        loop {
            match sync.status(&replies) {
                Asking::Run(args) => {
                    let reply = self.run(&args);
                    replies.push(reply);
                }
                Asking::Finish(status) => return status,
            }
        }
    }

    fn asked_for(&self, line: &str) -> usize {
        self.asked.iter().filter(|l| *l == line).count()
    }
}

const REPO: &str = "rev-parse --git-dir";
const REMOTE: &str = "remote";
const FETCH: &str = "fetch --quiet";
const UPSTREAM: &str = "rev-parse --abbrev-ref @{u}";
const COUNTS: &str = "rev-list --left-right --count @{u}...HEAD";
const DIRTY: &str = "status --porcelain";
const ADD: &str = "add -A";
const STAGED: &str = "diff --cached --quiet";

fn board() -> Sync {
    Sync::new("/pins")
}

#[test]
fn a_directory_that_is_not_a_repo_is_idle_never_an_error() {
    let mut git = Git::new(&[(REPO, &[fails("not a git repository")])]);
    let sync = board();
    assert!(!Sync::is_repo(&fails("not a git repository")));
    assert!(matches!(git.finish(&|r| sync.pull(r)), SyncOutcome::Idle(_)));
    assert!(matches!(git.finish(&|r| sync.push("x", r)), SyncOutcome::Idle(_)));
}

#[test]
fn commit_count_counts_what_is_on_the_branch() {
    assert_eq!(Sync::commit_count(&fails("unknown revision HEAD")), 0, "nothing committed yet");
    assert_eq!(Sync::commit_count(&ok("1\n")), 1);
    assert_eq!(Sync::commit_count(&ok("2\n")), 2);
}

#[test]
fn commit_count_is_zero_for_a_directory_that_is_not_a_repo() {
    assert_eq!(Sync::commit_count(&fails("not a git repository")), 0);
    assert_eq!(Sync::commit_count(&missing()), 0);
}

#[test]
fn clone_into_brings_a_board_down_from_a_url() {
    let mut git = Git::new(&[("clone /src /dest/board", &[ok("")])]);
    let out = git.finish(&|r| clone_into("/src", "/dest/board", false, r));
    assert!(matches!(out, SyncOutcome::Done(_)));
    assert_eq!(git.asked, ["clone /src /dest/board"]);
    assert!(out.message().contains("/dest/board"));
}

#[test]
fn clone_into_stops_rather_than_panicking_on_a_bad_url() {
    let mut git = Git::new(&[(
        "clone /definitely/not/a/repo/anywhere /dest/board",
        &[fails("fatal: repository does not exist")],
    )]);
    let url = "/definitely/not/a/repo/anywhere";
    let outcome = git.finish(&|r| clone_into(url, "/dest/board", false, r));
    assert!(outcome.is_stopped(), "got {outcome:?}");
    let outcome = git.finish(&|r| clone_into(url, "/dest/board", true, r));
    assert!(outcome.is_stopped(), "an existing directory is not cloned over");
    assert_eq!(git.asked.len(), 1);
}

#[test]
fn init_makes_a_repo_and_is_idempotent() {
    let mut git = Git::new(&[(REPO, &[fails(""), ok(".git")]), ("init", &[ok("")])]);
    let sync = board();
    assert!(matches!(git.finish(&|r| sync.init(r)), SyncOutcome::Done(_)));
    assert!(Sync::is_repo(&ok(".git")));
    assert!(matches!(git.finish(&|r| sync.init(r)), SyncOutcome::Idle(_)));
    assert_eq!(git.asked_for("init"), 1);
}

#[test]
fn push_commits_locally_when_there_is_no_remote() {
    let mut git = Git::new(&[
        (REPO, &[ok(".git")]),
        (ADD, &[ok("")]),
        (STAGED, &[fails("")]),
        ("commit -m pinz: update pins", &[ok("")]),
        (REMOTE, &[ok("")]),
    ]);
    let sync = board();
    let out = git.finish(&|r| sync.push("pinz: update pins", r));
    assert!(matches!(out, SyncOutcome::Idle(_)), "got {out:?}");
    assert!(out.message().contains("no remote"));
    // The commit still happened, so nothing is lost while offline.
    assert_eq!(git.asked_for("commit -m pinz: update pins"), 1);
}

#[test]
fn a_second_push_with_nothing_changed_does_not_commit_again() {
    let mut git = Git::new(&[
        (REPO, &[ok(".git")]),
        (ADD, &[ok("")]),
        (STAGED, &[fails(""), ok("")]),
        ("commit -m first", &[ok("")]),
        (REMOTE, &[ok("")]),
    ]);
    let sync = board();
    git.finish(&|r| sync.push("first", r));
    git.finish(&|r| sync.push("second", r));
    let commits = git.asked.iter().filter(|l| l.starts_with("commit")).count();
    assert_eq!(commits, 1, "an unchanged push should add no commit");
}

#[test]
fn a_pin_pushed_from_one_machine_arrives_on_the_other() {
    let mut a = Git::new(&[
        (REPO, &[ok(".git")]),
        (ADD, &[ok("")]),
        (STAGED, &[fails("")]),
        ("commit -m pinz: from a", &[ok("")]),
        (REMOTE, &[ok("origin\n")]),
        ("push --quiet -u origin HEAD", &[ok("")]),
    ]);
    let sync = board();
    let out = a.finish(&|r| sync.push("pinz: from a", r));
    assert!(matches!(out, SyncOutcome::Done(_)), "got {out:?}");
    assert_eq!(a.asked_for("push --quiet"), 0, "a first push names where it goes");

    let mut b = Git::new(&[
        (REPO, &[ok(".git")]),
        (REMOTE, &[ok("origin\n")]),
        (FETCH, &[ok("")]),
        (UPSTREAM, &[ok("origin/main\n")]),
        (COUNTS, &[ok("1\t0\n")]),
        ("merge --ff-only @{u}", &[ok("")]),
    ]);
    let out = b.finish(&|r| sync.pull(r));
    assert_eq!(out, SyncOutcome::Done("pulled 1 commit(s)".to_string()));
}

#[test]
fn status_on_a_plain_directory_reports_no_repo() {
    let mut git = Git::new(&[]);
    let st = git.status(&board());
    assert!(!st.is_repo);
    assert_eq!(st.summary(), "not a git repo yet");
    assert!(st.is_settled(), "nothing to do without a repo");
}

#[test]
fn status_counts_uncommitted_work_then_clears() {
    let mut git = Git::new(&[
        (REPO, &[ok(".git")]),
        (DIRTY, &[ok("?? ideas/a.md\n?? ideas/b.md\n"), ok("")]),
        (REMOTE, &[ok("")]),
    ]);
    let sync = board();
    let st = git.status(&sync);
    assert!(st.is_repo);
    assert!(!st.has_remote);
    assert!(st.dirty > 0, "untracked pins count as work to commit");
    assert!(!st.is_settled());
    assert!(st.summary().contains("uncommitted"), "got {}", st.summary());

    let st = git.status(&sync);
    assert_eq!(st.dirty, 0);
    assert!(st.is_settled());
    assert_eq!(st.summary(), "up to date locally (no remote)");
}

#[test]
fn status_sees_what_is_waiting_in_both_directions() {
    let mut git = Git::new(&[
        (REPO, &[ok(".git")]),
        (DIRTY, &[ok(""), ok("?? ideas/mine.md\n")]),
        (COUNTS, &[ok("0\t0\n"), ok("1\t0\n")]),
        (REMOTE, &[ok("origin\n")]),
        (UPSTREAM, &[ok("origin/main\n")]),
    ]);
    let sync = board();
    assert_eq!(git.status(&sync).summary(), "in sync");

    let st = git.status(&sync);
    assert_eq!(st.behind, 1, "one commit waiting to be pulled");
    assert_eq!(st.ahead, 0);
    assert_eq!(st.dirty, 1, "one pin waiting to be committed");
    let summary = st.summary();
    assert!(summary.contains("1 uncommitted"), "got {summary}");
    assert!(summary.contains("1 to pull"), "got {summary}");
}

#[test]
fn a_push_with_nothing_to_send_says_so_rather_than_claiming_a_push() {
    let mut git = Git::new(&[
        (REPO, &[ok(".git")]),
        (ADD, &[ok("")]),
        (STAGED, &[ok("")]),
        (REMOTE, &[ok("origin\n")]),
        (COUNTS, &[ok("0\t0\n")]),
    ]);
    let sync = board();
    let out = git.finish(&|r| sync.push("second", r));
    assert!(matches!(out, SyncOutcome::Idle(_)), "got {out:?}");
    assert_eq!(out.message(), "nothing to sync");
}

#[test]
fn commit_records_local_pins_without_sending_them() {
    let mut git = Git::new(&[
        (REPO, &[ok(".git")]),
        (ADD, &[ok("")]),
        (STAGED, &[fails("")]),
        ("commit -m pinz: checkpoint", &[ok("")]),
    ]);
    let sync = board();
    let out = git.finish(&|r| sync.commit("pinz: checkpoint", r));
    assert!(matches!(out, SyncOutcome::Done(_)), "got {out:?}");
    assert!(
        !git.asked.iter().any(|l| l.starts_with("push")),
        "recorded, not sent: {:?}",
        git.asked
    );
}

#[test]
fn commit_with_nothing_changed_is_idle() {
    let mut git = Git::new(&[(REPO, &[ok(".git")]), (ADD, &[ok("")]), (STAGED, &[ok("")])]);
    let sync = board();
    let out = git.finish(&|r| sync.commit("pinz: again", r));
    assert!(matches!(out, SyncOutcome::Idle(_)), "got {out:?}");
}

const KEEPER: &str = "---\nx: 10\ny: 20\nz: 5\ncolor: green\n---\n# Keeper\n\nold todo\n";

/// A git whose rebase stops on the given conflicts, each with the base, remote
/// and local text of one file.
fn conflicted(entries: &str, file: &str, texts: [Reply; 3]) -> Git {
    let [base, remote, local] = texts;
    let (one, two, three) = (
        format!("show :1:{file}"),
        format!("show :2:{file}"),
        format!("show :3:{file}"),
    );
    let add = format!("add -- {file}");
    Git::new(&[
        (REPO, &[ok(".git")]),
        (REMOTE, &[ok("origin\n")]),
        (FETCH, &[ok("")]),
        (UPSTREAM, &[ok("origin/main\n")]),
        (COUNTS, &[ok("1\t1\n")]),
        ("rebase @{u}", &[fails("could not apply")]),
        ("status --porcelain -z", &[ok(entries)]),
        (one.as_str(), &[base]),
        (two.as_str(), &[remote]),
        (three.as_str(), &[local]),
        (add.as_str(), &[ok("")]),
        ("-c core.editor=true rebase --continue", &[ok("")]),
        ("rebase --abort", &[ok("")]),
    ])
}

#[test]
fn committing_first_rescues_a_pull_that_uncommitted_edits_would_refuse() {
    // Git refuses to pull over uncommitted edits to the same pin.
    let sync = board();
    let mut dirty = Git::new(&[
        (REPO, &[ok(".git")]),
        (REMOTE, &[ok("origin\n")]),
        (FETCH, &[ok("")]),
        (UPSTREAM, &[ok("origin/main\n")]),
        (COUNTS, &[ok("1\t0\n")]),
        ("merge --ff-only @{u}", &[fails("error: local changes would be overwritten")]),
    ]);
    let refused = dirty.finish(&|r| sync.pull(r));
    assert!(refused.is_stopped(), "a dirty tree must be what blocks the plain pull");

    // Once they are a commit, the pin merge settles the rest.
    let mut git = conflicted(
        "UU ideas/keeper.md\0",
        "ideas/keeper.md",
        [
            ok(KEEPER),
            ok(&KEEPER.replace("z: 5", "z: 6")),
            ok(&KEEPER.replace("old todo", "go with Keeper Commander")),
        ],
    );
    let out = git.finish(&|r| sync.pull(r));
    assert!(matches!(out, SyncOutcome::Done(_)), "got {out:?}, asked {:?}", git.asked);
    assert_eq!(git.written.len(), 1);
    let (file, merged) = &git.written[0];
    assert_eq!(file, "ideas/keeper.md");
    assert!(
        merged.contains("go with Keeper Commander"),
        "the local edit survives:\n{merged}"
    );
    assert!(
        merged.contains("z: 6"),
        "and so does the remote restack:\n{merged}"
    );
}

#[test]
fn a_move_on_one_machine_and_an_edit_on_the_other_sync_cleanly() {
    let restacked = KEEPER
        .replace("z: 5", "z: 6")
        .replace("color: green", "color: blue");
    let edited = KEEPER
        .replace("z: 5", "z: 7")
        .replace("old todo", "go with Keeper Commander");
    let mut git = conflicted(
        "UU ideas/keeper.md\0",
        "ideas/keeper.md",
        [ok(KEEPER), ok(&restacked), ok(&edited)],
    );
    let sync = board();
    let out = git.finish(&|r| sync.pull(r));
    assert!(
        matches!(out, SyncOutcome::Done(_)),
        "should auto-merge, got {out:?}, asked {:?}",
        git.asked
    );
    let merged = &git.written[0].1;
    assert!(
        merged.contains("go with Keeper Commander"),
        "local body kept:\n{merged}"
    );
    assert!(
        merged.contains("z: 7"),
        "the restack tie goes to local:\n{merged}"
    );
    assert!(
        merged.contains("color: blue"),
        "remote recolor kept:\n{merged}"
    );
    assert_eq!(git.asked_for("rebase --abort"), 0, "the rebase finished for real");
}

/// A delete against an edit is a judgement call, so the guardrail holds: stop,
/// leave the repo exactly as it was.
#[test]
fn a_delete_against_an_edit_still_stops() {
    let mut git = conflicted(
        "DU ideas/doomed.md\0",
        "ideas/doomed.md",
        [ok(KEEPER), fails("no such path"), ok(KEEPER)],
    );
    let sync = board();
    let out = git.finish(&|r| sync.pull(r));
    assert!(out.is_stopped(), "delete vs edit must stop, got {out:?}");
    assert_eq!(git.asked.last().unwrap(), "rebase --abort");
    assert!(git.written.is_empty(), "local work must survive the stop");
}

#[test]
fn the_same_pin_edited_on_both_machines_stops_and_leaves_the_repo_alone() {
    let mut git = conflicted(
        "UU ideas/shared.md\0",
        "ideas/shared.md",
        [ok("# original\n"), ok("# edited on a\n"), ok("# edited on b\n")],
    );
    let sync = board();
    let out = git.finish(&|r| sync.pull(r));
    assert!(out.is_stopped(), "a real conflict must stop, got {out:?}");
    assert!(out.message().contains("/pins"), "it says where: {}", out.message());
    assert_eq!(git.asked.last().unwrap(), "rebase --abort");
    assert!(git.written.is_empty(), "local work must survive the stop");
}

#[test]
fn a_repo_with_no_remote_has_nowhere_to_say_it_pushed_to() {
    assert_eq!(Sync::remote_url(&fails("No such remote 'origin'")), None);
}

#[test]
fn the_push_destination_is_whatever_origin_points_at() {
    assert_eq!(
        Sync::remote_url(&ok("git@github.com:someone/pinz-board.git\n")).as_deref(),
        Some("git@github.com:someone/pinz-board.git")
    );
}

// ---- what else can happen on the way ----

#[test]
fn two_records_of_the_open_world_settle_on_the_later_one() {
    let mut git = conflicted(
        "AA .pinz-world\0",
        ".pinz-world",
        [fails(""), ok("world: sketches\nat: 200\n"), ok("world: ideas\nat: 100\n")],
    );
    let sync = board();
    let out = git.finish(&|r| sync.pull(r));
    assert!(matches!(out, SyncOutcome::Done(_)), "got {out:?}, asked {:?}", git.asked);
    assert_eq!(git.written.len(), 1);
    assert_eq!(git.written[0].0, ".pinz-world");
    assert_eq!(git.written[0].1, "world: sketches\nat: 200\n");
}

#[test]
fn a_git_that_is_not_there_never_stops_a_fetch() {
    let mut git = Git::new(&[(REPO, &[missing()])]);
    let sync = board();
    let out = git.finish(&|r| sync.fetch(r));
    assert_eq!(out, SyncOutcome::Idle("not a git repo yet".to_string()));

    let mut git = Git::new(&[
        (REPO, &[ok(".git")]),
        (REMOTE, &[ok("origin\n")]),
        (FETCH, &[fails("fatal: unable to access\nmore words")]),
    ]);
    let out = git.finish(&|r| sync.fetch(r));
    assert_eq!(
        out,
        SyncOutcome::Idle("could not fetch: fatal: unable to access".to_string())
    );
    assert_eq!(sync.root(), "/pins");
}

#[test]
fn a_rejected_push_stops_with_gits_own_first_line() {
    let mut git = Git::new(&[
        (REPO, &[ok(".git")]),
        (ADD, &[ok("")]),
        (STAGED, &[ok("")]),
        (REMOTE, &[ok("origin\n")]),
        (COUNTS, &[ok("0\t2\n")]),
        (UPSTREAM, &[ok("origin/main\n")]),
        ("push --quiet", &[fails("! [rejected]\nhint: pull first")]),
    ]);
    let sync = board();
    let out = git.finish(&|r| sync.push("m", r));
    assert_eq!(out, SyncOutcome::Stopped("push failed: ! [rejected]".to_string()));
    assert_eq!(first_line("one\ntwo"), "one");
}

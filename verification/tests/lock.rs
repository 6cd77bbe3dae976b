//! The write lock, run against a filesystem and a process table kept by hand.

use pinz::lock::{
    ensure_ignored, lock_body, read_pid, BoardLock, LockEvent, LockStep, Ownership, Written,
};

const LOCK_FILE: &str = ".pinz-lock";

/// The pin root of a test: its lock file, its `.gitignore`, and who is running.
struct Root {
    lock: Option<String>,
    ignore: String,
    running: Vec<u32>,
    refuses: bool,
}

impl Root {
    fn new(running: &[u32]) -> Self {
        Root {
            lock: None,
            ignore: String::new(),
            running: running.to_vec(),
            refuses: false,
        }
    }

    fn create(&mut self, pid: u32) -> Written {
        if self.refuses {
            Written::Failed
        } else if self.lock.is_some() {
            Written::Exists
        } else {
            self.lock = Some(lock_body(pid, 1_785_594_622));
            Written::Taken
        }
    }

    /// Take the lock as process `pid`.
    fn acquire(&mut self, pid: u32) -> Ownership {
        let mut events: Vec<LockEvent> = Vec::new();
        let held = loop {
            let event = match BoardLock::acquire("/pins", &events) {
                LockStep::Create => LockEvent::Wrote(self.create(pid)),
                LockStep::Read => LockEvent::Read(self.lock.clone()),
                LockStep::Probe { pid } => LockEvent::Alive(self.running.contains(&pid)),
                LockStep::Replace => {
                    self.lock = None;
                    LockEvent::Wrote(self.create(pid))
                }
                LockStep::Finish(held) => break held,
            };
            events.push(event);
            assert!(events.len() < 20, "the lock never settles: {events:?}");
        };
        if held.is_owner() {
            if let Some(line) = ensure_ignored(&self.ignore) {
                self.ignore.push_str(&line);
            }
        }
        held
    }

    /// Let go of the lock, as ending a session does.
    fn release(&mut self, held: Ownership) {
        if let Ownership::Owner(lock) = held {
            if let Some(path) = lock.path {
                assert_eq!(path, format!("/pins/{LOCK_FILE}"));
                self.lock = None;
            }
        }
    }
}

#[test]
fn the_first_instance_owns_the_board() {
    let mut t = Root::new(&[100]);
    let held = t.acquire(100);
    assert!(held.is_owner(), "got {held:?}");
    assert!(t.lock.is_some(), "the lock file is written");
}

#[test]
fn a_second_instance_is_told_who_owns_it() {
    let mut t = Root::new(&[100, 200]);
    let _first = t.acquire(100);
    match t.acquire(200) {
        Ownership::Busy { pid } => assert_eq!(pid, 100, "names the holder"),
        other => panic!("a second instance must not own the board: {other:?}"),
    }
}

#[test]
fn releasing_lets_the_next_instance_in() {
    let mut t = Root::new(&[100, 200]);
    let first = t.acquire(100);
    assert!(first.is_owner());
    t.release(first);
    assert!(t.lock.is_none(), "letting go removes the lock file");
    assert!(t.acquire(200).is_owner(), "the next one gets in");
}

#[test]
fn a_lock_left_by_a_dead_process_is_taken_over() {
    let mut t = Root::new(&[100]);
    t.lock = Some("pid: 999\nsince: 0\n".to_string());
    assert!(
        t.acquire(100).is_owner(),
        "a hard kill must not lock you out forever"
    );
    assert_eq!(read_pid(&t.lock), Some(100), "and the file names the new owner");
}

#[test]
fn taking_the_lock_keeps_it_out_of_git() {
    // `pinz sync` stages everything, so an un-ignored lock file would be
    // committed and shipped to the other machine, where its pid is
    // meaningless and would lock the board for no reason.
    let mut t = Root::new(&[100]);
    let _held = t.acquire(100);
    assert!(t.ignore.contains(LOCK_FILE), "got {:?}", t.ignore);
}

#[test]
fn an_existing_gitignore_is_added_to_once_not_clobbered() {
    let mut t = Root::new(&[100]);
    t.ignore = "something-else\n".to_string();
    for _ in 0..2 {
        let held = t.acquire(100);
        t.release(held);
    }
    assert!(t.ignore.contains("something-else"), "kept: {:?}", t.ignore);
    assert_eq!(
        t.ignore.matches(LOCK_FILE).count(),
        1,
        "added exactly once: {:?}",
        t.ignore
    );
}

#[test]
fn a_lock_file_with_no_readable_owner_is_taken_over() {
    let mut t = Root::new(&[100]);
    t.lock = Some("not a lock file\n".to_string());
    assert!(t.acquire(100).is_owner());
}

#[test]
fn a_filesystem_that_takes_no_lock_does_not_keep_you_out() {
    let mut t = Root::new(&[100]);
    t.refuses = true;
    match t.acquire(100) {
        Ownership::Owner(lock) => assert_eq!(lock.path, None, "nothing to clean up"),
        other => panic!("got {other:?}"),
    }
}

#[test]
fn a_lock_names_its_holder() {
    let body = lock_body(4242, 7);
    assert_eq!(body, "pid: 4242\nsince: 7\n");
    assert_eq!(read_pid(&Some(body)), Some(4242));
    assert_eq!(read_pid(&None), None);
}

#[test]
fn an_ignore_file_without_a_last_newline_gets_one() {
    assert_eq!(
        ensure_ignored("target").as_deref(),
        Some("\n.pinz-lock\n"),
        "the entry stands on a line of its own"
    );
    assert_eq!(ensure_ignored("").as_deref(), Some(".pinz-lock\n"));
    assert_eq!(ensure_ignored("a\n.pinz-lock\n"), None);
}

//! The command line.

use crate::text::{opt_str, same_str, strs};
use vstd::prelude::*;

verus! {

broadcast use crate::text::group_strs;

/// What a run of pinz is for.
#[derive(Debug, Clone, Copy, PartialEq, Eq, Structural)]
pub enum Command {
    Run,
    /// Do whatever the repo needs: pull what's waiting, commit what changed,
    /// push what's ahead.
    Sync,
    /// Report the repo's state and do nothing.
    Status,
    /// Only bring the other machine's pins in.
    Pull,
    /// Only commit and send this machine's pins.
    Push,
    Help,
    /// Print the version. Worth having with two machines: the pin format is
    /// shared, so knowing both ends run the same build matters.
    Version,
}

impl Command {
    /// The command a word names.
    pub open spec fn named(word: Seq<char>) -> Option<Command> {
        if word == "sync"@ {
            Some(Command::Sync)
        } else if word == "status"@ || word == "st"@ {
            Some(Command::Status)
        } else if word == "pull"@ {
            Some(Command::Pull)
        } else if word == "push"@ {
            Some(Command::Push)
        } else if word == "help"@ || word == "--help"@ || word == "-h"@ {
            Some(Command::Help)
        } else if word == "version"@ || word == "--version"@ || word == "-V"@ {
            Some(Command::Version)
        } else {
            None
        }
    }

    /// Subcommand names. `sync` is the one to reach for; `pull` and `push` are
    /// for when you want exactly one half of it.
    ///
    /// Only `st` is abbreviated, and only because guessing wrong about it is
    /// free: the worst a misread `st` can do is print a report. Everything that
    /// moves commits must be typed in full: a saved keystroke is not worth a
    /// command that does the opposite of what you meant.
    pub fn from_word(word: &str) -> (c: Option<Command>)
        ensures
            c == Command::named(word@),
    {
        if same_str(word, "sync") {
            Some(Command::Sync)
        } else if same_str(word, "status") || same_str(word, "st") {
            Some(Command::Status)
        } else if same_str(word, "pull") {
            Some(Command::Pull)
        } else if same_str(word, "push") {
            Some(Command::Push)
        } else if same_str(word, "help") || same_str(word, "--help") || same_str(word, "-h") {
            Some(Command::Help)
        } else if same_str(word, "version") || same_str(word, "--version") || same_str(
            word,
            "-V",
        ) {
            Some(Command::Version)
        } else {
            None
        }
    }
}

#[derive(Debug)]
pub struct Options {
    pub command: Command,
    /// A starting theme, matched loosely later.
    pub theme: Option<String>,
    /// Whether to touch git at all this run.
    pub sync: bool,
}

/// [`Options`] as a value.
#[verifier::ext_equal]
pub struct Chosen {
    pub command: Command,
    pub theme: Option<Seq<char>>,
    pub sync: bool,
}

impl View for Options {
    type V = Chosen;

    open spec fn view(&self) -> Chosen {
        Chosen { command: self.command, theme: opt_str(self.theme), sync: self.sync }
    }
}

/// What the arguments from the `i`-th on choose, on top of what was chosen
/// before them. A subcommand, if a word names one; otherwise a bare word is the
/// theme, if there is none yet: `pinz nord`. A later word has the say over an
/// earlier one.
pub open spec fn chosen(args: Seq<Seq<char>>, i: int, o: Chosen) -> Chosen
    decreases args.len() - i,
{
    if i < 0 || i >= args.len() {
        o
    } else if args[i] == "--no-sync"@ {
        chosen(args, i + 1, Chosen { sync: false, ..o })
    } else if args[i] == "--theme"@ || args[i] == "-t"@ {
        if i + 1 < args.len() {
            chosen(args, i + 2, Chosen { theme: Some(args[i + 1]), ..o })
        } else {
            Chosen { theme: None, ..o }
        }
    } else {
        match Command::named(args[i]) {
            Some(command) => chosen(args, i + 1, Chosen { command, ..o }),
            None => if o.theme is None && !(args[i].len() > 0 && args[i][0] == '-') {
                chosen(args, i + 1, Chosen { theme: Some(args[i]), ..o })
            } else {
                chosen(args, i + 1, o)
            },
        }
    }
}

impl Options {
    /// What the arguments ask for: to open the board, and to sync, unless they
    /// say otherwise.
    pub fn parse(args: &[String]) -> (o: Options)
        ensures
            o@ == chosen(
                strs(args@),
                0,
                (Chosen { command: Command::Run, theme: None, sync: true }),
            ),
    {
        let mut o = Options { command: Command::Run, theme: None, sync: true };
        let ghost want = chosen(strs(args@), 0, o@);
        let mut i: usize = 0;
        while i < args.len()
            invariant
                i <= args@.len(),
                want == chosen(strs(args@), i as int, o@),
            decreases args@.len() - i,
        {
            let arg = &args[i];
            let mut next: usize = i + 1;
            if same_str(arg, "--no-sync") {
                o.sync = false;
            } else if same_str(arg, "--theme") || same_str(arg, "-t") {
                if next < args.len() {
                    o.theme = Some(args[next].clone());
                    next += 1;
                } else {
                    o.theme = None;
                }
            } else {
                match Command::from_word(arg) {
                    Some(command) => {
                        o.command = command;
                    },
                    None => {
                        let chars = crate::text::chars_of(arg);
                        if o.theme.is_none() && !(chars.len() > 0 && chars[0] == '-') {
                            o.theme = Some(arg.clone());
                        }
                    },
                }
            }
            i = next;
        }
        o
    }
}

/// What `pinz help` prints, for a build of some version.
pub open spec fn help(version: Seq<char>) -> Seq<char> {
    "pinz "@ + version + " - a spatial bulletin board in your terminal

USAGE:
    pinz [THEME]        open the board (optionally in a named theme)
    pinz sync           do whatever the repo needs: pull, commit, push
    pinz status  (st)   report what is waiting, and change nothing
    pinz pull           only bring the other machine's pins in
    pinz push           only commit and send this machine's pins
    pinz help           show this
    pinz version        print this build, and the newest release

OPTIONS:
    -t, --theme <NAME>  start in a theme (mocha, tokyo, gruvbox, nord, light)
        --no-sync       do not touch git this run

PINS:
    Pins live in $PINZ_HOME, or ~/pinz-board. One directory per board, one markdown
    file per pin. It is an ordinary git repo: add a remote and `pinz sync`
    keeps your machines level."@
}

/// What `pinz help` prints.
pub fn help_text(version: &str) -> (out: String)
    ensures
        out@ == help(version@),
{
    crate::git::glued(
        &crate::git::glued("pinz ", version),
        " - a spatial bulletin board in your terminal

USAGE:
    pinz [THEME]        open the board (optionally in a named theme)
    pinz sync           do whatever the repo needs: pull, commit, push
    pinz status  (st)   report what is waiting, and change nothing
    pinz pull           only bring the other machine's pins in
    pinz push           only commit and send this machine's pins
    pinz help           show this
    pinz version        print this build, and the newest release

OPTIONS:
    -t, --theme <NAME>  start in a theme (mocha, tokyo, gruvbox, nord, light)
        --no-sync       do not touch git this run

PINS:
    Pins live in $PINZ_HOME, or ~/pinz-board. One directory per board, one markdown
    file per pin. It is an ordinary git repo: add a remote and `pinz sync`
    keeps your machines level.",
    )
}

/// Only the command that changes nothing may be abbreviated: a word of one or
/// two letters is `st` or opens the board.
pub proof fn law_short_words_move_nothing(word: Seq<char>)
    requires
        word.len() <= 2,
        word != "-h"@,
        word != "-V"@,
    ensures
        Command::named(word) is Some ==> word == "st"@ && Command::named(word) == Some(
            Command::Status,
        ),
{
    reveal_strlit("sync");
    reveal_strlit("status");
    reveal_strlit("pull");
    reveal_strlit("push");
    reveal_strlit("help");
    reveal_strlit("--help");
    reveal_strlit("version");
    reveal_strlit("--version");
}

/// Without `--no-sync` nothing turns syncing off; and with it somewhere, and no
/// option that takes the next word, it is off.
pub proof fn law_only_no_sync_turns_syncing_off(args: Seq<Seq<char>>, i: int, o: Chosen)
    requires
        0 <= i <= args.len(),
    ensures
        (forall|k: int| i <= k < args.len() ==> #[trigger] args[k] != "--no-sync"@) ==> chosen(
            args,
            i,
            o,
        ).sync == o.sync,
        !o.sync ==> !chosen(args, i, o).sync,
        (forall|k: int| i <= k < args.len() ==> #[trigger] args[k] != "--theme"@ && args[k] != "-t"@)
            && (exists|k: int| i <= k < args.len() && #[trigger] args[k] == "--no-sync"@) ==> !chosen(
            args,
            i,
            o,
        ).sync,
    decreases args.len() - i,
{
    if i < args.len() {
        let rest = if args[i] != "--no-sync"@ && (args[i] == "--theme"@ || args[i] == "-t"@) {
            i + 2
        } else {
            i + 1
        };
        if rest <= args.len() {
            let next = if args[i] == "--no-sync"@ {
                Chosen { sync: false, ..o }
            } else if args[i] == "--theme"@ || args[i] == "-t"@ {
                Chosen { theme: Some(args[i + 1]), ..o }
            } else {
                match Command::named(args[i]) {
                    Some(command) => Chosen { command, ..o },
                    None => if o.theme is None && !(args[i].len() > 0 && args[i][0] == '-') {
                        Chosen { theme: Some(args[i]), ..o }
                    } else {
                        o
                    },
                }
            };
            law_only_no_sync_turns_syncing_off(args, rest, next);
        }
    }
}

/// One word: a command if it is one's name, and otherwise a theme to open the board
/// in. The option asks for a theme by any name, even a command's.
pub proof fn law_one_word(word: Seq<char>, o: Chosen)
    requires
        o == (Chosen { command: Command::Run, theme: None, sync: true }),
        word != "--no-sync"@,
        word != "--theme"@,
        word != "-t"@,
    ensures
        Command::named(word) matches Some(c) ==> chosen(seq![word], 0, o) == (Chosen {
            command: c,
            ..o
        }),
        Command::named(word) is None && word.len() > 0 && word[0] != '-' ==> chosen(
            seq![word],
            0,
            o,
        ) == (Chosen { theme: Some(word), ..o }),
        chosen(seq!["--theme"@, word], 0, o) == (Chosen { theme: Some(word), ..o }),
{
    reveal_with_fuel(chosen, 3);
    reveal_strlit("--theme");
    reveal_strlit("--no-sync");
    assert("--theme"@.len() != "--no-sync"@.len());
    assert(seq!["--theme"@, word][0] == "--theme"@ && seq!["--theme"@, word][1] == word);
}

/// No word asks for a theme by the option.
pub open spec fn no_theme_option(args: Seq<Seq<char>>) -> bool {
    forall|k: int| 0 <= k < args.len() ==> #[trigger] args[k] != "--theme"@ && args[k] != "-t"@
}

/// A word that is neither an option nor a command.
pub open spec fn bare(word: Seq<char>) -> bool {
    &&& word != "--no-sync"@
    &&& Command::named(word) is None
    &&& !(word.len() > 0 && word[0] == '-')
}

proof fn lemma_no_sync_is_no_command()
    ensures
        Command::named("--no-sync"@) is None,
{
    reveal_strlit("--no-sync");
    reveal_strlit("sync");
    reveal_strlit("status");
    reveal_strlit("st");
    reveal_strlit("pull");
    reveal_strlit("push");
    reveal_strlit("help");
    reveal_strlit("--help");
    reveal_strlit("-h");
    reveal_strlit("version");
    reveal_strlit("--version");
    reveal_strlit("-V");
    let word = "--no-sync"@;
    assert(word.len() == 9 && word[2] == 'n');
    assert("sync"@.len() == 4 && "status"@.len() == 6 && "st"@.len() == 2);
    assert("pull"@.len() == 4 && "push"@.len() == 4);
    assert("help"@.len() == 4 && "--help"@.len() == 6 && "-h"@.len() == 2);
    assert("version"@.len() == 7 && "-V"@.len() == 2 && "--version"@[2] == 'v');
    assert(word != "--version"@);
}

/// Of several commands the last one counts, and of several other words the first is
/// the theme.
pub proof fn law_which_words_count(args: Seq<Seq<char>>, i: int, o: Chosen, at: int, first: int)
    requires
        no_theme_option(args),
        0 <= i <= args.len(),
        o.theme is None,
    ensures
        i <= at < args.len() && Command::named(args[at]) is Some && (forall|k: int|
            at < k < args.len() ==> Command::named(#[trigger] args[k]) is None) ==> chosen(
            args,
            i,
            o,
        ).command == Command::named(args[at])->0,
        (forall|k: int| i <= k < args.len() ==> Command::named(#[trigger] args[k]) is None) ==> chosen(
            args,
            i,
            o,
        ).command == o.command,
        i <= first < args.len() && bare(args[first]) && (forall|k: int|
            i <= k < first ==> !bare(#[trigger] args[k])) ==> chosen(args, i, o).theme == Some(
            args[first],
        ),
        (forall|k: int| i <= k < args.len() ==> !bare(#[trigger] args[k])) ==> chosen(
            args,
            i,
            o,
        ).theme is None,
    decreases args.len() - i,
{
    if i < args.len() {
        lemma_no_sync_is_no_command();
        let next = if args[i] == "--no-sync"@ {
            Chosen { sync: false, ..o }
        } else {
            match Command::named(args[i]) {
                Some(command) => Chosen { command, ..o },
                None => if o.theme is None && !(args[i].len() > 0 && args[i][0] == '-') {
                    Chosen { theme: Some(args[i]), ..o }
                } else {
                    o
                },
            }
        };
        assert(chosen(args, i, o) == chosen(args, i + 1, next));
        if next.theme is None {
            law_which_words_count(args, i + 1, next, at, first);
        } else {
            lemma_theme_stays(args, i + 1, next, at);
        }
    }
}

proof fn lemma_theme_stays(args: Seq<Seq<char>>, i: int, o: Chosen, at: int)
    requires
        no_theme_option(args),
        0 <= i <= args.len(),
        o.theme is Some,
    ensures
        chosen(args, i, o).theme == o.theme,
        i <= at < args.len() && Command::named(args[at]) is Some && (forall|k: int|
            at < k < args.len() ==> Command::named(#[trigger] args[k]) is None) ==> chosen(
            args,
            i,
            o,
        ).command == Command::named(args[at])->0,
        (forall|k: int| i <= k < args.len() ==> Command::named(#[trigger] args[k]) is None) ==> chosen(
            args,
            i,
            o,
        ).command == o.command,
    decreases args.len() - i,
{
    if i < args.len() {
        lemma_no_sync_is_no_command();
        let next = if args[i] == "--no-sync"@ {
            Chosen { sync: false, ..o }
        } else {
            match Command::named(args[i]) {
                Some(command) => Chosen { command, ..o },
                None => o,
            }
        };
        assert(chosen(args, i, o) == chosen(args, i + 1, next));
        lemma_theme_stays(args, i + 1, next, at);
    }
}

} // verus!

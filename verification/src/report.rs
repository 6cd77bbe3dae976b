//! The lines pinz prints around the TUI, on the way in and on the way out.
//!
//! They draw one block: a labelled rule, then indented lines under it. Quitting
//! the TUI tears down the alternate screen and snaps the old scrollback back, so
//! these lines land on top of whatever was already there - a build, a git log,
//! another shell. The block has to say where it starts and whose it is without
//! being read.

use crate::git::{Outcome, SyncOutcome};
use crate::release::{Standing, Version};
use crate::text::{
    chars_of, join, lines, lines_of, push_all, push_text, split, split_chars, string_of, strs,
    sub_vec,
};
use vstd::prelude::*;

verus! {

broadcast use crate::text::group_strs;

// The bright variants (9x) rather than the plain ones (3x): this block lands
// under a dark terminal more often than not, and the dim ones read as
// switched off rather than quiet.
pub const RESET: &'static str = "\u{1b}[0m";

pub const BOLD: &'static str = "\u{1b}[1m";

pub const DIM: &'static str = "\u{1b}[2m";

pub const WHITE: &'static str = "\u{1b}[37m";

pub const BLUE: &'static str = "\u{1b}[94m";

pub const CYAN: &'static str = "\u{1b}[36m";

pub const GREEN: &'static str = "\u{1b}[92m";

pub const RED: &'static str = "\u{1b}[91m";

/// Whose block this is. On the rule, so it does not have to be on every line.
pub const LABEL: &'static str = "pinz";

/// Rule drawn before the label, so it reads as a rule with a name on it rather
/// than a heading with a line after it.
pub const RULE_LEAD: usize = 3;

/// Page width when there is no terminal to measure - piped, redirected, or a
/// terminal that will not say.
pub const FALLBACK_WIDTH: usize = 64;

/// Step names are padded to a column so the messages line up under each other
/// and the block scans as a table. Six holds the longest of them (`commit`).
pub const STEP_COLUMN: usize = 6;

// ---- pieces ----

/// A character, some number of times.
pub open spec fn times(c: char, n: int) -> Seq<char> {
    Seq::new(
        (if n > 0 {
            n
        } else {
            0
        }) as nat,
        |i: int| c,
    )
}

fn push_times(out: &mut Vec<char>, c: char, n: usize)
    ensures
        final(out)@ == old(out)@ + times(c, n as int),
{
    let ghost start = out@;
    let mut i: usize = 0;
    proof {
        assert(start + times(c, 0) =~= start);
    }
    while i < n
        invariant
            i <= n,
            out@ == start + times(c, i as int),
        decreases n - i,
    {
        out.push(c);
        i += 1;
        proof {
            assert(start + times(c, i as int) =~= (start + times(c, i - 1)).push(c));
        }
    }
}

/// A text with spaces after it out to a column.
pub open spec fn column(s: Seq<char>, width: int) -> Seq<char> {
    s + times(' ', width - s.len())
}

fn push_column(out: &mut Vec<char>, s: &str, width: usize)
    ensures
        final(out)@ == old(out)@ + column(s@, width as int),
{
    let ghost start = out@;
    let chars = chars_of(s);
    push_all(out, &chars);
    if chars.len() < width {
        push_times(out, ' ', width - chars.len());
    }
    proof {
        assert(out@ =~= start + column(s@, width as int));
    }
}

// ---- the rule ----

/// The opening rule. The rule is neutral and the name is blue, so the eye lands
/// on the name and the line stays furniture. A width too small for both keeps
/// the label and loses the rule: the name is the part that carries meaning.
pub open spec fn divider(width: int, color: bool) -> Seq<char> {
    let lead = times('\u{2500}', RULE_LEAD as int);
    let tail = times('\u{2500}', width - RULE_LEAD - LABEL@.len() - 2);
    if color {
        WHITE@ + lead + " "@ + BOLD@ + BLUE@ + LABEL@ + RESET@ + WHITE@ + " "@ + tail + RESET@
    } else {
        lead + " "@ + LABEL@ + " "@ + tail
    }
}

/// The rule that opens the block, drawn across the terminal. Anything narrower
/// is a decoration; a divider divides.
pub fn divider_line(width: usize, color: bool) -> (out: String)
    ensures
        out@ == divider(width as int, color),
{
    proof {
        reveal_strlit("pinz");
    }
    let mut out: Vec<char> = Vec::new();
    let spent: usize = RULE_LEAD + 4 + 2;
    let tail: usize = if width > spent {
        width - spent
    } else {
        0
    };
    if color {
        push_text(&mut out, WHITE);
    }
    push_times(&mut out, '\u{2500}', RULE_LEAD);
    push_text(&mut out, " ");
    if color {
        push_text(&mut out, BOLD);
        push_text(&mut out, BLUE);
    }
    push_text(&mut out, LABEL);
    if color {
        push_text(&mut out, RESET);
        push_text(&mut out, WHITE);
    }
    push_text(&mut out, " ");
    push_times(&mut out, '\u{2500}', tail);
    if color {
        push_text(&mut out, RESET);
    }
    proof {
        assert(LABEL@.len() == 4);
        assert(times('\u{2500}', tail as int) =~= times('\u{2500}', width - spent));
        assert(out@ =~= divider(width as int, color));
    }
    string_of(&out)
}

/// How wide to draw the rule: as wide as the terminal says it is.
pub fn rule_width(columns: Option<u16>) -> (w: usize)
    ensures
        w == (if columns is Some && columns->0 > 0 {
            columns->0 as int
        } else {
            FALLBACK_WIDTH as int
        }),
{
    match columns {
        Some(columns) => if columns > 0 {
            columns as usize
        } else {
            FALLBACK_WIDTH
        },
        None => FALLBACK_WIDTH,
    }
}

// ---- steps ----

/// The glyph and tint a step's outcome is reported with.
pub open spec fn marked(outcome: Outcome) -> (Seq<char>, Seq<char>) {
    match outcome {
        Outcome::Done(_) => ("\u{2713}"@, GREEN@),
        Outcome::Idle(_) => ("\u{b7}"@, DIM@),
        Outcome::Stopped(_) => ("\u{2717}"@, RED@),
    }
}

/// The glyph and tint a step's outcome is reported with.
///
/// Idle is deliberately quiet rather than green: "nothing needed doing" and "it
/// worked" are different answers, and a board that never pushed should not look
/// like one that did.
pub fn mark(outcome: &SyncOutcome) -> (m: (&'static str, &'static str))
    ensures
        (m.0@, m.1@) == marked(outcome@),
{
    match outcome {
        SyncOutcome::Done(_) => ("\u{2713}", GREEN),
        SyncOutcome::Idle(_) => ("\u{b7}", DIM),
        SyncOutcome::Stopped(_) => ("\u{2717}", RED),
    }
}

/// One step's line. Only the glyph and the step name are painted.
pub open spec fn step_line(step: Seq<char>, outcome: Outcome, color: bool) -> Seq<char> {
    let (glyph, tint) = marked(outcome);
    if color {
        "  "@ + tint + glyph + " "@ + column(step, STEP_COLUMN as int) + RESET@ + "  "@
            + outcome.says()
    } else {
        "  "@ + glyph + " "@ + column(step, STEP_COLUMN as int) + "  "@ + outcome.says()
    }
}

/// One step's line: a glyph, the step, what came of it.
///
/// Only the glyph and the step name are painted. The message is git's own
/// wording, folded up from its stderr, and often carries a path or a branch -
/// that reads better plain, and keeps the color meaning one thing.
pub fn report_line(step: &str, outcome: &SyncOutcome, color: bool) -> (out: String)
    ensures
        out@ == step_line(step@, outcome@, color),
{
    let (glyph, tint) = mark(outcome);
    let mut out = chars_of("  ");
    if color {
        push_text(&mut out, tint);
    }
    push_text(&mut out, glyph);
    push_text(&mut out, " ");
    push_column(&mut out, step, STEP_COLUMN);
    if color {
        push_text(&mut out, RESET);
    }
    push_text(&mut out, "  ");
    push_text(&mut out, outcome.message());
    proof {
        assert(out@ =~= step_line(step@, outcome@, color));
    }
    string_of(&out)
}

/// Something that went wrong.
pub open spec fn trouble(text: Seq<char>, color: bool) -> Seq<char> {
    if color {
        "  "@ + RED@ + "\u{2717}"@ + " "@ + text + RESET@
    } else {
        "  "@ + "\u{2717}"@ + " "@ + text
    }
}

/// Something that went wrong, in the same shape as a step so the eye can follow
/// one column down the page.
pub fn problem_line(text: &str, color: bool) -> (out: String)
    ensures
        out@ == trouble(text@, color),
{
    let mut out = chars_of("  ");
    if color {
        push_text(&mut out, RED);
    }
    push_text(&mut out, "\u{2717}");
    push_text(&mut out, " ");
    push_text(&mut out, text);
    if color {
        push_text(&mut out, RESET);
    }
    proof {
        assert(out@ =~= trouble(text@, color));
    }
    string_of(&out)
}

/// A line inside the block.
pub open spec fn indented(line: Seq<char>, color: bool) -> Seq<char> {
    if color {
        BLUE@ + "  "@ + line + RESET@
    } else {
        "  "@ + line
    }
}

/// Lines inside the block, each with its own indent and tint.
pub open spec fn details(text: Seq<char>, color: bool) -> Seq<char> {
    join(
        Seq::new(lines_of(text).len(), |i: int| indented(lines_of(text)[i], color)),
        '\n',
    )
}

/// A line that expands on the one above it: where the board is, what git can
/// see, what to do about a missing remote.
///
/// One tint for all of it, so the eye can tell "pinz telling you something"
/// from "pinz reporting what it did" without reading either.
pub fn detail_line(text: &str, color: bool) -> (out: String)
    ensures
        out@ == details(text@, color),
{
    let all = lines(&chars_of(text));
    let ghost want = lines_of(text@);
    let mut out: Vec<String> = Vec::new();
    let mut i: usize = 0;
    while i < all.len()
        invariant
            i <= all@.len(),
            all@.len() == want.len(),
            forall|k: int| 0 <= k < all@.len() ==> (#[trigger] all@[k])@ == want[k],
            strs(out@) =~= Seq::new(i as nat, |k: int| indented(want[k], color)),
        decreases all@.len() - i,
    {
        let mut line: Vec<char> = Vec::new();
        if color {
            push_text(&mut line, BLUE);
        }
        push_text(&mut line, "  ");
        push_all(&mut line, &all[i]);
        if color {
            push_text(&mut line, RESET);
        }
        proof {
            assert(line@ =~= indented(want[i as int], color));
        }
        out.push(string_of(&line));
        i += 1;
    }
    crate::text::join_strings(&out, '\n')
}

// ---- remotes ----

/// The text without the slashes at its end.
pub open spec fn no_slashes_after(s: Seq<char>) -> Seq<char>
    decreases s.len(),
{
    if s.len() > 0 && s.last() == '/' {
        no_slashes_after(s.drop_last())
    } else {
        s
    }
}

/// A URL as far as the name of the repo: no slashes after it, no `.git`.
pub open spec fn repo_part(url: Seq<char>) -> Seq<char> {
    let s = no_slashes_after(url);
    if s.len() >= 4 && s.skip(s.len() - 4) == ".git"@ {
        s.take(s.len() - 4)
    } else {
        s
    }
}

fn repo_of(url: &str) -> (out: Vec<char>)
    ensures
        out@ == repo_part(url@),
{
    let chars = chars_of(url);
    let mut n: usize = chars.len();
    proof {
        assert(chars@.take(n as int) =~= chars@);
    }
    while n > 0 && chars[n - 1] == '/'
        invariant
            n <= chars@.len(),
            no_slashes_after(chars@.take(n as int)) == no_slashes_after(chars@),
        decreases n,
    {
        proof {
            assert(chars@.take(n as int).drop_last() =~= chars@.take(n - 1));
        }
        n -= 1;
    }
    let ghost s = chars@.take(n as int);
    proof {
        reveal_strlit(".git");
        if n >= 4 {
            let tail = s.skip(n - 4);
            assert(tail[0] == chars@[n - 4] && tail[1] == chars@[n - 3] && tail[2] == chars@[n - 2]
                && tail[3] == chars@[n - 1]);
            assert(tail == ".git"@ <==> tail =~= ".git"@);
            assert(s.take(n - 4) =~= chars@.subrange(0, n - 4));
        }
        assert(s =~= chars@.subrange(0, n as int));
    }
    if n >= 4 && chars[n - 4] == '.' && chars[n - 3] == 'g' && chars[n - 2] == 'i' && chars[n - 1]
        == 't' {
        sub_vec(&chars, 0, n - 4)
    } else {
        sub_vec(&chars, 0, n)
    }
}

/// A text with its colons as slashes.
pub open spec fn slashed(s: Seq<char>) -> Seq<char> {
    Seq::new(
        s.len(),
        |i: int|
            if s[i] == ':' {
                '/'
            } else {
                s[i]
            },
    )
}

/// The pieces that name something: not empty, and no `git@host`.
pub open spec fn naming(pieces: Seq<Seq<char>>, n: int) -> Seq<Seq<char>>
    decreases n,
{
    if n <= 0 {
        Seq::empty()
    } else {
        let p = pieces[n - 1];
        if p.len() == 0 || p.contains('@') {
            naming(pieces, n - 1)
        } else {
            naming(pieces, n - 1).push(p)
        }
    }
}

/// The readable half of a remote URL: the last two pieces that name something,
/// or all of it if nothing does.
pub open spec fn remote_name(url: Seq<char>) -> Seq<char> {
    let pieces = split(slashed(repo_part(url)), '/');
    let named = naming(pieces, pieces.len() as int);
    if named.len() == 0 {
        url
    } else if named.len() == 1 {
        named[0]
    } else {
        named[named.len() - 2] + "/"@ + named.last()
    }
}

fn has_at(piece: &[char]) -> (r: bool)
    ensures
        r == piece@.contains('@'),
{
    let mut i: usize = 0;
    while i < piece.len()
        invariant
            i <= piece@.len(),
            forall|k: int| 0 <= k < i ==> piece@[k] != '@',
        decreases piece@.len() - i,
    {
        if piece[i] == '@' {
            return true;
        }
        i += 1;
    }
    false
}

/// The readable half of a remote URL: owner and repo, whether it is written for
/// ssh or for https.
///
/// The host is dropped: pins live in one place, and reading it out on every quit
/// is noise. A remote that is a directory keeps its last two segments, which is
/// the same idea applied to a path. Anything this cannot make sense of is shown
/// as it is, because a destination you do not recognise is exactly when you need
/// to see it.
pub fn short_remote(url: &str) -> (out: String)
    ensures
        out@ == remote_name(url@),
{
    let mut part = repo_of(url);
    let ghost plain = part@;
    let mut i: usize = 0;
    while i < part.len()
        invariant
            i <= part@.len(),
            part@.len() == plain.len(),
            forall|k: int| 0 <= k < i ==> part@[k] == slashed(plain)[k],
            forall|k: int| i <= k < part@.len() ==> part@[k] == plain[k],
        decreases part@.len() - i,
    {
        if part[i] == ':' {
            part[i] = '/';
        }
        i += 1;
    }
    proof {
        assert(part@ =~= slashed(plain));
    }
    let pieces = split_chars(&part, '/');
    let ghost want = split(part@, '/');
    let mut named: Vec<Vec<char>> = Vec::new();
    let ghost mut names: Seq<Seq<char>> = Seq::empty();
    let mut k: usize = 0;
    while k < pieces.len()
        invariant
            k <= pieces@.len(),
            pieces@.len() == want.len(),
            forall|j: int| 0 <= j < pieces@.len() ==> (#[trigger] pieces@[j])@ == want[j],
            names == naming(want, k as int),
            named@.len() == names.len(),
            forall|j: int| 0 <= j < named@.len() ==> (#[trigger] named@[j])@ == names[j],
        decreases pieces@.len() - k,
    {
        let n: usize = pieces[k].len();
        if n > 0 && !has_at(&pieces[k]) {
            let piece = sub_vec(&pieces[k], 0, n);
            proof {
                assert(piece@ =~= want[k as int]);
                names = names.push(piece@);
            }
            named.push(piece);
        }
        k += 1;
    }
    let n: usize = named.len();
    if n == 0 {
        return url.to_owned();
    }
    let mut out: Vec<char> = Vec::new();
    if n > 1 {
        push_all(&mut out, &named[n - 2]);
        push_text(&mut out, "/");
    }
    push_all(&mut out, &named[n - 1]);
    proof {
        assert(out@ =~= remote_name(url@));
    }
    string_of(&out)
}

/// What a finished push says: git's wording, then where the pins went.
pub open spec fn pushed_to(
    what: Seq<char>,
    destination: Option<Seq<char>>,
    color: bool,
) -> Seq<char> {
    match destination {
        Some(name) => if color {
            what + " to "@ + CYAN@ + name + RESET@
        } else {
            what + " to "@ + name
        },
        None => what,
    }
}

/// What a finished push says: git's wording, then where the pins went.
///
/// The destination is the point of the line. Two machines pointed at different
/// remotes look identical until the name is on screen, and that is a mistake
/// you want to catch on the quit that made it, not a week later.
pub fn push_message(what: &str, destination: Option<&str>, color: bool) -> (out: String)
    ensures
        out@ == pushed_to(
            what@,
            (match destination {
                Some(d) => Some(d@),
                None => None,
            }),
            color,
        ),
{
    let mut out = chars_of(what);
    if let Some(name) = destination {
        push_text(&mut out, " to ");
        if color {
            push_text(&mut out, CYAN);
        }
        push_text(&mut out, name);
        if color {
            push_text(&mut out, RESET);
        }
        proof {
            assert(out@ =~= pushed_to(what@, Some(name@), color));
        }
    }
    string_of(&out)
}

// ---- versions ----

/// Where a person goes to get the newer build.
pub open spec fn releases(repository: Seq<char>) -> Seq<char> {
    repo_part(repository) + "/releases/latest"@
}

/// Where a person goes to get the newer build. The host resolves
/// `/releases/latest` itself, so nothing here has to know the number it just
/// finished printing.
pub fn releases_url(repository: &str) -> (out: String)
    ensures
        out@ == releases(repository@),
{
    let mut out = repo_of(repository);
    push_text(&mut out, "/releases/latest");
    string_of(&out)
}

/// What `pinz version` prints: this build, the newest release, and where one
/// stands against the other. The last is left out when there is nothing to
/// compare.
pub open spec fn versions(
    running: Seq<char>,
    latest: Option<Version>,
    repository: Seq<char>,
) -> Seq<char> {
    let name = remote_name(repository);
    "pinz    "@ + running + "\nlatest  "@ + (match latest {
        Some(v) => v.says() + "  ("@ + name + ")"@,
        None => "unknown  (could not reach "@ + name + ")"@,
    }) + (match (Version::named(running), latest) {
        (Some(build), Some(v)) => if build == v {
            "\nup to date"@
        } else if build.older(v) {
            "\na newer release is out: "@ + releases(repository)
        } else {
            "\nahead: this build is not released yet"@
        },
        _ => Seq::empty(),
    })
}

/// What `pinz version` prints: this build, the newest release, and where one
/// stands against the other.
///
/// `latest` is `None` whenever the answer did not arrive - offline, no git, a
/// repository that has moved. That prints as `unknown` and is not an error.
/// The running build is the half of the question that always has an answer,
/// and a version command that fails because the host is unreachable would be
/// refusing to answer the part it knows.
///
/// The third line is dropped rather than guessed when either number is
/// missing: with nothing to compare, "up to date" and "behind" are both
/// claims pinz cannot make.
pub fn version_report(running: &str, latest: Option<Version>, repository: &str) -> (out: String)
    ensures
        out@ == versions(running@, latest, repository@),
{
    let name = short_remote(repository);
    let mut out = chars_of("pinz    ");
    push_text(&mut out, running);
    push_text(&mut out, "\nlatest  ");
    match latest {
        Some(v) => {
            push_text(&mut out, &v.message());
            push_text(&mut out, "  (");
            push_text(&mut out, &name);
            push_text(&mut out, ")");
        },
        None => {
            push_text(&mut out, "unknown  (could not reach ");
            push_text(&mut out, &name);
            push_text(&mut out, ")");
        },
    }
    if let (Some(build), Some(v)) = (Version::parse(running), latest) {
        match build.standing(&v) {
            Standing::Current => push_text(&mut out, "\nup to date"),
            Standing::Behind => {
                push_text(&mut out, "\na newer release is out: ");
                push_text(&mut out, &releases_url(repository));
            },
            Standing::Ahead => push_text(&mut out, "\nahead: this build is not released yet"),
        }
    }
    proof {
        assert(out@ =~= versions(running@, latest, repository@));
    }
    string_of(&out)
}

// ---- a board without a remote ----

/// What to print when the pin repo has no remote.
pub open spec fn advice(root: Seq<char>, created: bool) -> Seq<char> {
    (if created {
        root + " is new and holds one blank pin.\n"@
    } else {
        Seq::empty()
    }) + "no remote yet, so nothing syncs. two ways forward:
  your pins already live in a repo, pushed from another machine?
  clone it. do not add a remote here - the histories are unrelated
  and git will refuse to merge them:
      mv "@ + root + " "@ + root + ".bak && git clone <url> "@ + root
        + "\n  this is your first machine? create the remote:
      cd "@ + root + " && gh repo create pinz-board --private --source=. --push"@
}

/// What to print when the pin repo has no remote.
///
/// Both ways forward are always shown, because from here they are
/// indistinguishable: a board pinz just created and a board whose remote was
/// never added look identical on disk. Guessing costs far more in one direction
/// than the other - `remote add origin` pointed at a board that already exists
/// on another machine fuses two unrelated histories, and git refuses to merge
/// those - so cloning is listed first and the pins are moved aside, not deleted.
pub fn remote_advice(root: &str, created: bool) -> (out: String)
    ensures
        out@ == advice(root@, created),
{
    let mut out: Vec<char> = Vec::new();
    if created {
        push_text(&mut out, root);
        push_text(&mut out, " is new and holds one blank pin.\n");
    }
    push_text(
        &mut out,
        "no remote yet, so nothing syncs. two ways forward:
  your pins already live in a repo, pushed from another machine?
  clone it. do not add a remote here - the histories are unrelated
  and git will refuse to merge them:
      mv ",
    );
    push_text(&mut out, root);
    push_text(&mut out, " ");
    push_text(&mut out, root);
    push_text(&mut out, ".bak && git clone <url> ");
    push_text(&mut out, root);
    push_text(
        &mut out,
        "\n  this is your first machine? create the remote:
      cd ",
    );
    push_text(&mut out, root);
    push_text(&mut out, " && gh repo create pinz-board --private --source=. --push");
    proof {
        assert(out@ =~= advice(root@, created));
    }
    string_of(&out)
}

// ---- laws ----

/// The plain rule is as wide as asked, where there is room for the label.
pub proof fn law_the_rule_spans_the_width(width: int)
    requires
        width >= 9,
    ensures
        divider(width, false).len() == width,
{
    reveal_strlit("pinz");
    reveal_strlit(" ");
}

/// Messages start in one column, whatever the step is called.
pub proof fn law_messages_line_up(a: Seq<char>, b: Seq<char>)
    requires
        a.len() <= STEP_COLUMN,
        b.len() <= STEP_COLUMN,
    ensures
        column(a, STEP_COLUMN as int).len() == column(b, STEP_COLUMN as int).len(),
{
}

proof fn lemma_named_push(pieces: Seq<Seq<char>>, p: Seq<char>)
    requires
        p.len() > 0,
        !p.contains('@'),
    ensures
        naming(pieces.push(p), pieces.len() as int + 1) == naming(pieces, pieces.len() as int).push(p),
{
    let all = pieces.push(p);
    lemma_naming_prefix(pieces, all, pieces.len() as int);
    assert(all[pieces.len() as int] == p);
}

proof fn lemma_naming_prefix(a: Seq<Seq<char>>, b: Seq<Seq<char>>, n: int)
    requires
        0 <= n <= a.len(),
        n <= b.len(),
        forall|i: int| 0 <= i < n ==> a[i] == b[i],
    ensures
        naming(a, n) == naming(b, n),
    decreases n,
{
    if n > 0 {
        lemma_naming_prefix(a, b, n - 1);
    }
}

/// A name that can stand in a remote's URL as one piece of its path.
pub open spec fn path_piece(s: Seq<char>) -> bool {
    s.len() > 0 && !s.contains('/') && !s.contains(':') && !s.contains('@')
}

proof fn lemma_ends_plainly(s: Seq<char>)
    requires
        s.len() > 0,
        s.last() != '/',
    ensures
        no_slashes_after(s) == s,
{
}

/// However a remote is addressed, by URL or by `user@host:path`, with `.git` behind it
/// or not, it goes by its owner and its name.
pub proof fn law_a_remote_goes_by_owner_and_name(
    before: Seq<char>,
    sep: char,
    owner: Seq<char>,
    name: Seq<char>,
)
    requires
        sep == '/' || sep == ':',
        path_piece(owner),
        path_piece(name),
        !(name.len() >= 4 && name.skip(name.len() - 4) == ".git"@),
    ensures
        ({
            let url = before.push(sep) + owner + seq!['/'] + name;
            &&& remote_name(url + ".git"@) == owner + seq!['/'] + name
            &&& remote_name(url) == owner + seq!['/'] + name
        }),
{
    reveal_strlit(".git");
    reveal_strlit("/");
    let head = before.push(sep) + owner;
    let url = head + seq!['/'] + name;
    let full = url + ".git"@;
    assert(name.contains(name.last()));
    assert(url.last() == name.last());
    lemma_ends_plainly(url);
    assert(full.last() == ".git"@[3]);
    lemma_ends_plainly(full);
    assert(full.skip(full.len() - 4) =~= ".git"@);
    assert(full.take(full.len() - 4) =~= url);
    if url.len() >= 4 && url.skip(url.len() - 4) == ".git"@ {
        let tail = url.skip(url.len() - 4);
        if name.len() >= 4 {
            assert(name.skip(name.len() - 4) =~= tail);
        } else {
            assert(tail[3 - name.len()] == url[url.len() - 1 - name.len()]);
            assert(url[url.len() - 1 - name.len()] == '/');
        }
    }
    assert(repo_part(url) == url && repo_part(full) == url);
    let s = slashed(url);
    assert(forall|i: int| 0 <= i < owner.len() ==> owner.contains(#[trigger] owner[i]));
    assert(forall|i: int| 0 <= i < name.len() ==> name.contains(#[trigger] name[i]));
    assert(s =~= (slashed(before).push('/') + owner).push('/') + name);
    crate::text::lemma_split_tail(slashed(before).push('/') + owner, name, '/');
    crate::text::lemma_split_tail(slashed(before), owner, '/');
    let first = split(slashed(before), '/');
    lemma_named_push(first, owner);
    lemma_named_push(first.push(owner), name);
    assert(split(s, '/') =~= first.push(owner).push(name));
    let named = naming(first, first.len() as int).push(owner).push(name);
    assert(named[named.len() - 2] == owner && named.last() == name);
    assert(owner + "/"@ + name =~= owner + seq!['/'] + name);
}

/// What came of a step is told by its mark: no two kinds of outcome share one, nor a
/// tint; and the message is at the end of the line as it is.
pub proof fn law_marks_tell_outcomes_apart(a: Outcome, b: Outcome, step: Seq<char>, color: bool)
    ensures
        marked(a).0 == marked(b).0 <==> (a is Done <==> b is Done) && (a is Stopped <==> b is Stopped),
        a.says().is_suffix_of(step_line(step, a, color)),
{
    reveal_strlit("\u{2713}");
    reveal_strlit("\u{b7}");
    reveal_strlit("\u{2717}");
    assert("\u{2713}"@[0] != "\u{b7}"@[0]);
    assert("\u{2713}"@[0] != "\u{2717}"@[0]);
    assert("\u{b7}"@[0] != "\u{2717}"@[0]);
    let line = step_line(step, a, color);
    assert(line.skip(line.len() - a.says().len()) =~= a.says());
}

/// A version report says which build is running and which is the latest, and of a
/// build that can be compared whether it is up to date, behind or ahead.
pub proof fn law_a_version_report_says_where_the_build_stands(
    running: Seq<char>,
    latest: Version,
    repository: Seq<char>,
    build: Version,
)
    requires
        Version::named(running) == Some(build),
    ensures
        ({
            let said = versions(running, Some(latest), repository);
            let head = "pinz    "@ + running + "\nlatest  "@ + (latest.says() + "  ("@ + remote_name(
                repository,
            ) + ")"@);
            &&& build == latest ==> said == head + "\nup to date"@
            &&& build.older(latest) ==> said == head + ("\na newer release is out: "@ + releases(
                repository,
            ))
            &&& latest.older(build) ==> said == head + "\nahead: this build is not released yet"@
        }),
{
    crate::release::law_versions_are_ordered(build, latest, build);
}

/// Every line of a detail is set in, and none is lost or changed.
pub proof fn law_every_line_of_a_detail_is_set_in(text: Seq<char>, i: int)
    requires
        0 <= i < lines_of(text).len(),
        forall|k: int|
            0 <= k < lines_of(text).len() ==> crate::text::without_last_cr(#[trigger] lines_of(text)[k])
                == lines_of(text)[k],
    ensures
        lines_of(details(text, false)).len() == lines_of(text).len(),
        lines_of(details(text, false))[i] == "  "@ + lines_of(text)[i],
{
    reveal_strlit("  ");
    let lines = lines_of(text);
    let set_in = Seq::new(lines.len(), |k: int| indented(lines[k], false));
    crate::text::lemma_split_pieces(text, '\n');
    assert forall|k: int| 0 <= k < set_in.len() implies !(#[trigger] set_in[k]).contains('\n')
        && crate::text::without_last_cr(set_in[k]) == set_in[k] by {
        let line = lines[k];
        assert(crate::text::without_last_cr(line) == line);
        assert(!line.contains('\n')) by {
            let pieces = split(text, '\n');
            let p = pieces[k];
            assert(!p.contains('\n'));
            assert forall|j: int| 0 <= j < line.len() implies line[j] != '\n' by {
                assert(p[j] == line[j]);
                assert(p.contains(p[j]));
            }
        }
        assert forall|j: int| 0 <= j < set_in[k].len() implies set_in[k][j] != '\n' by {
            if j >= 2 {
                assert(set_in[k][j] == line[j - 2]);
                assert(line.contains(line[j - 2]));
            }
        }
        if line.len() > 0 {
            assert(set_in[k].last() == line.last());
            if line.last() == '\r' {
                assert(line.drop_last().len() == line.len());
            }
        }
    }
    assert(set_in.last().len() > 0);
    crate::text::law_lines_read_back(set_in);
}

} // verus!

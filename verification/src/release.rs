//! What pinz has released, so a build can say where it stands.
//!
//! The running version is always knowable. The newest released version lives on
//! the source repo as a tag, and asking for it means the network, which means it
//! is sometimes not knowable at all. Everything here is built around that
//! asymmetry: the answer is an `Option`, and not getting one is an ordinary
//! outcome rather than an error.
//!
//! Tags come from `git ls-remote`. git is already a hard requirement of a tool
//! that keeps its pins in a git repo, so this costs no dependency, no token, and
//! none of an API's hourly request budget.

use crate::text::{
    chars_of, decimal, is_white, lines, lines_of, number_upto, parse_upto, push_decimal, split,
    split_chars, stands_at, string_of, sub_vec, white,
};
use std::cmp::Ordering;
use vstd::prelude::*;

verus! {

/// A released version, `major.minor.patch`.
#[derive(Debug, Clone, Copy, PartialEq, Eq, Structural, Ord)]
pub struct Version {
    pub major: u32,
    pub minor: u32,
    pub patch: u32,
}

/// Where a running build stands against the newest release.
#[derive(Debug, Clone, Copy, PartialEq, Eq, Structural)]
pub enum Standing {
    /// Running exactly what was last released.
    Current,
    /// A newer release exists.
    Behind,
    /// Running something never released - a build from a working tree, or a
    /// version bumped in the repo and not yet tagged.
    Ahead,
}

/// The text after a prefix, or all of it.
pub open spec fn without_v(s: Seq<char>) -> Seq<char> {
    if s.len() > 0 && s[0] == 'v' {
        s.skip(1)
    } else {
        s
    }
}

impl Version {
    /// Older: less in the first number that differs.
    pub open spec fn older(self, other: Version) -> bool {
        ||| self.major < other.major
        ||| self.major == other.major && self.minor < other.minor
        ||| self.major == other.major && self.minor == other.minor && self.patch < other.patch
    }

    /// The version a tag names: three numbers with dots between them, a `v` in
    /// front or not.
    pub open spec fn named(text: Seq<char>) -> Option<Version> {
        let parts = split(without_v(text), '.');
        if parts.len() == 3 && number_upto(parts[0], u32::MAX as int) is Some && number_upto(
            parts[1],
            u32::MAX as int,
        ) is Some && number_upto(parts[2], u32::MAX as int) is Some {
            Some(
                Version {
                    major: number_upto(parts[0], u32::MAX as int)->0 as u32,
                    minor: number_upto(parts[1], u32::MAX as int)->0 as u32,
                    patch: number_upto(parts[2], u32::MAX as int)->0 as u32,
                },
            )
        } else {
            None
        }
    }

    /// Parse `v1.2.3` or `1.2.3`. Anything else is `None`.
    ///
    /// Deliberately strict about the three-number shape: a pre-release tag
    /// (`v1.2.3-rc.1`) is not a release, and reading one as `1.2.3` would tell
    /// someone a newer version is out when nothing has shipped. Refusing to
    /// parse it drops it out of the running instead.
    pub fn parse(text: &str) -> (out: Option<Version>)
        ensures
            out == Version::named(text@),
    {
        parse_tag(&chars_of(text))
    }

    /// Where `self`, the running build, stands against `latest`.
    pub fn standing(&self, latest: &Version) -> (s: Standing)
        ensures
            s == (if *self == *latest {
                Standing::Current
            } else if self.older(*latest) {
                Standing::Behind
            } else {
                Standing::Ahead
            }),
    {
        if *self == *latest {
            Standing::Current
        } else if older_than(self, latest) {
            Standing::Behind
        } else {
            Standing::Ahead
        }
    }

    /// The version as text, without a `v`.
    pub open spec fn says(self) -> Seq<char> {
        decimal(self.major as nat) + seq!['.'] + decimal(self.minor as nat) + seq!['.'] + decimal(
            self.patch as nat,
        )
    }

    /// The version as text, without a `v`.
    pub fn message(&self) -> (out: String)
        ensures
            out@ == self.says(),
    {
        let mut out: Vec<char> = Vec::new();
        push_decimal(&mut out, self.major as u64);
        out.push('.');
        push_decimal(&mut out, self.minor as u64);
        out.push('.');
        push_decimal(&mut out, self.patch as u64);
        proof {
            assert(out@ =~= self.says());
        }
        string_of(&out)
    }
}

impl PartialOrd for Version {
    fn partial_cmp(&self, other: &Version) -> (o: Option<Ordering>) {
        if self.major != other.major {
            if self.major < other.major {
                Some(Ordering::Less)
            } else {
                Some(Ordering::Greater)
            }
        } else if self.minor != other.minor {
            if self.minor < other.minor {
                Some(Ordering::Less)
            } else {
                Some(Ordering::Greater)
            }
        } else if self.patch != other.patch {
            if self.patch < other.patch {
                Some(Ordering::Less)
            } else {
                Some(Ordering::Greater)
            }
        } else {
            Some(Ordering::Equal)
        }
    }
}

impl vstd::std_specs::cmp::PartialOrdSpecImpl for Version {
    open spec fn obeys_partial_cmp_spec() -> bool {
        true
    }

    open spec fn partial_cmp_spec(&self, other: &Version) -> Option<Ordering> {
        if self.older(*other) {
            Some(Ordering::Less)
        } else if other.older(*self) {
            Some(Ordering::Greater)
        } else {
            Some(Ordering::Equal)
        }
    }
}

fn older_than(a: &Version, b: &Version) -> (r: bool)
    ensures
        r == a.older(*b),
{
    a.major < b.major || (a.major == b.major && (a.minor < b.minor || (a.minor == b.minor
        && a.patch < b.patch)))
}

fn parse_tag(text: &[char]) -> (out: Option<Version>)
    ensures
        out == Version::named(text@),
{
    let from: usize = if text.len() > 0 && text[0] == 'v' {
        1
    } else {
        0
    };
    let digits = sub_vec(text, from, text.len());
    proof {
        assert(digits@ =~= without_v(text@));
    }
    let parts = split_chars(&digits, '.');
    if parts.len() != 3 {
        return None;
    }
    let major = parse_upto(&parts[0], u32::MAX as u64);
    let minor = parse_upto(&parts[1], u32::MAX as u64);
    let patch = parse_upto(&parts[2], u32::MAX as u64);
    match (major, minor, patch) {
        (Some(major), Some(minor), Some(patch)) => Some(
            Version { major: major as u32, minor: minor as u32, patch: patch as u32 },
        ),
        _ => None,
    }
}

// ---- the newest of the tags ----

/// The last word of a line.
pub open spec fn last_word(line: Seq<char>) -> Option<Seq<char>>
    decreases line.len(),
{
    if line.len() == 0 {
        None
    } else if is_white(line.last()) {
        last_word(line.drop_last())
    } else {
        Some(word_at_end(line))
    }
}

/// What a line ends with, back to its last white space.
pub open spec fn word_at_end(line: Seq<char>) -> Seq<char>
    decreases line.len(),
{
    if line.len() == 0 || is_white(line.last()) {
        Seq::empty()
    } else {
        word_at_end(line.drop_last()).push(line.last())
    }
}

/// The version a line of `git ls-remote` is about, if it is about one.
pub open spec fn tag_on(line: Seq<char>) -> Option<Version> {
    match last_word(line) {
        Some(reference) => if "refs/tags/"@.is_prefix_of(reference) {
            Version::named(reference.skip(10))
        } else {
            None
        },
        None => None,
    }
}

/// The highest version among the first `n` lines.
pub open spec fn highest(lines: Seq<Seq<char>>, n: int) -> Option<Version>
    decreases n,
{
    if n <= 0 {
        None
    } else {
        let so_far = highest(lines, n - 1);
        match tag_on(lines[n - 1]) {
            Some(v) => if so_far is None || so_far->0.older(v) {
                Some(v)
            } else {
                so_far
            },
            None => so_far,
        }
    }
}

fn read_tag(line: &[char]) -> (out: Option<Version>)
    ensures
        out == tag_on(line@),
{
    let mut to: usize = line.len();
    proof {
        assert(line@.take(to as int) =~= line@);
    }
    while to > 0 && white(line[to - 1])
        invariant
            to <= line@.len(),
            last_word(line@) == last_word(line@.take(to as int)),
        decreases to,
    {
        proof {
            assert(line@.take(to as int).drop_last() =~= line@.take(to - 1));
        }
        to -= 1;
    }
    if to == 0 {
        return None;
    }
    let mut from: usize = to;
    proof {
        assert(line@.subrange(to as int, to as int) =~= Seq::empty());
        assert(word_at_end(line@.take(to as int)) =~= word_at_end(line@.take(from as int))
            + line@.subrange(from as int, to as int));
    }
    while from > 0 && !white(line[from - 1])
        invariant
            from <= to <= line@.len(),
            word_at_end(line@.take(to as int)) == word_at_end(line@.take(from as int))
                + line@.subrange(from as int, to as int),
        decreases from,
    {
        proof {
            assert(line@.take(from as int).drop_last() =~= line@.take(from - 1));
            assert(word_at_end(line@.take(from as int)) + line@.subrange(from as int, to as int)
                =~= word_at_end(line@.take(from - 1)) + line@.subrange(from - 1, to as int));
        }
        from -= 1;
    }
    let reference = sub_vec(line, from, to);
    let prefix = chars_of("refs/tags/");
    proof {
        assert(reference@ =~= word_at_end(line@.take(to as int)));
        reveal_strlit("refs/tags/");
    }
    if reference.len() >= 10 && stands_at(&prefix, &reference, 0) {
        let tag = sub_vec(&reference, 10, reference.len());
        proof {
            assert("refs/tags/"@.is_prefix_of(reference@));
            assert(tag@ =~= reference@.skip(10));
        }
        parse_tag(&tag)
    } else {
        None
    }
}

/// The highest version among the tags in `git ls-remote` output.
///
/// Lines that are not a version tag are ignored rather than fatal: a repo is
/// free to carry tags that have nothing to do with releases.
pub fn latest_in(ls_remote: &str) -> (out: Option<Version>)
    ensures
        out == highest(lines_of(ls_remote@), lines_of(ls_remote@).len() as int),
{
    let all = lines(&chars_of(ls_remote));
    let ghost want = lines_of(ls_remote@);
    let mut best: Option<Version> = None;
    let mut i: usize = 0;
    while i < all.len()
        invariant
            i <= all@.len(),
            all@.len() == want.len(),
            forall|k: int| 0 <= k < all@.len() ==> (#[trigger] all@[k])@ == want[k],
            best == highest(want, i as int),
        decreases all@.len() - i,
    {
        if let Some(v) = read_tag(&all[i]) {
            best = match best {
                Some(b) => if older_than(&b, &v) {
                    Some(v)
                } else {
                    Some(b)
                },
                None => Some(v),
            };
        }
        i += 1;
    }
    best
}

/// What `git ls-remote` has to be told, to ask a repo for its tags.
///
/// The low-speed cutoff, because an unreachable host otherwise hangs the command
/// for far longer than anyone will wait to be told their version. Five seconds
/// without progress is an answer.
pub fn ls_remote_args(repository: &str) -> (args: Vec<String>)
    ensures
        crate::text::strs(args@) == seq![
            "-c"@,
            "http.lowSpeedLimit=1000"@,
            "-c"@,
            "http.lowSpeedTime=5"@,
            "ls-remote"@,
            "--tags"@,
            "--refs"@,
            repository@,
        ],
{
    let mut args: Vec<String> = Vec::new();
    args.push("-c".to_owned());
    args.push("http.lowSpeedLimit=1000".to_owned());
    args.push("-c".to_owned());
    args.push("http.lowSpeedTime=5".to_owned());
    args.push("ls-remote".to_owned());
    args.push("--tags".to_owned());
    args.push("--refs".to_owned());
    args.push(repository.to_owned());
    proof {
        assert(crate::text::strs(args@) =~= seq![
            "-c"@,
            "http.lowSpeedLimit=1000"@,
            "-c"@,
            "http.lowSpeedTime=5"@,
            "ls-remote"@,
            "--tags"@,
            "--refs"@,
            repository@,
        ]);
    }
    args
}

/// The newest release, from what asking for the tags printed, or `None` if the
/// answer did not arrive.
///
/// `None` covers every way this can fail to produce a number - no network, no
/// git, a repo that is gone, a repo with no version tags - because the caller
/// does the same thing in all of them: say it does not know.
pub fn latest_release(printed: Option<&str>) -> (out: Option<Version>)
    ensures
        out == (match printed {
            Some(text) => highest(lines_of(text@), lines_of(text@).len() as int),
            None => None,
        }),
{
    match printed {
        Some(text) => latest_in(text),
        None => None,
    }
}

// ---- laws ----

/// Versions are in order: of two that differ exactly one is older, and what is
/// older than something older is older.
pub proof fn law_versions_are_ordered(a: Version, b: Version, c: Version)
    ensures
        !a.older(a),
        a != b ==> a.older(b) != b.older(a),
        a.older(b) && b.older(c) ==> a.older(c),
{
}

/// The newest release is one of the tags, and no tag is newer.
pub proof fn law_the_latest_is_the_newest(lines: Seq<Seq<char>>, n: int)
    requires
        0 <= n <= lines.len(),
    ensures
        highest(lines, n) is None <==> forall|i: int|
            0 <= i < n ==> tag_on(#[trigger] lines[i]) is None,
        highest(lines, n) is Some ==> exists|i: int|
            0 <= i < n && tag_on(#[trigger] lines[i]) == highest(lines, n),
        highest(lines, n) is Some ==> forall|i: int|
            0 <= i < n && tag_on(#[trigger] lines[i]) is Some ==> !highest(lines, n)->0.older(
                tag_on(lines[i])->0,
            ),
    decreases n,
{
    if n > 0 {
        law_the_latest_is_the_newest(lines, n - 1);
        let so_far = highest(lines, n - 1);
        if tag_on(lines[n - 1]) is Some && highest(lines, n) == tag_on(lines[n - 1]) {
            assert(tag_on(lines[n - 1]) == highest(lines, n));
        } else if so_far is Some {
            let i = choose|i: int| 0 <= i < n - 1 && tag_on(#[trigger] lines[i]) == so_far;
            assert(tag_on(lines[i]) == highest(lines, n));
        }
    }
}

/// A version reads back as it was written, with a `v` in front or not.
pub proof fn law_a_version_reads_back(v: Version)
    ensures
        Version::named(v.says()) == Some(v),
        Version::named(seq!['v'] + v.says()) == Some(v),
{
    let (a, b, c) = (decimal(v.major as nat), decimal(v.minor as nat), decimal(v.patch as nat));
    crate::text::law_decimal_round_trips(v.major as nat);
    crate::text::law_decimal_round_trips(v.minor as nat);
    crate::text::law_decimal_round_trips(v.patch as nat);
    lemma_no_dot(v.major as nat);
    lemma_no_dot(v.minor as nat);
    lemma_no_dot(v.patch as nat);
    let s = v.says();
    assert(s =~= (a.push('.') + b).push('.') + c);
    crate::text::lemma_split_one(a, '.');
    crate::text::lemma_split_tail(a, b, '.');
    crate::text::lemma_split_tail(a.push('.') + b, c, '.');
    assert(split(s, '.') =~= seq![a, b, c]);
    assert(s[0] == a[0] && crate::text::is_digit(a[0]));
    assert((seq!['v'] + s).skip(1) =~= s);
}

proof fn lemma_no_dot(n: nat)
    ensures
        !decimal(n).contains('.'),
{
    crate::text::law_decimal_round_trips(n);
    if decimal(n).contains('.') {
        let i = choose|i: int| 0 <= i < decimal(n).len() && decimal(n)[i] == '.';
        assert(crate::text::is_digit(decimal(n)[i]));
    }
}

proof fn lemma_word_at_end(before: Seq<char>, word: Seq<char>)
    requires
        before.len() == 0 || is_white(before.last()),
        forall|i: int| 0 <= i < word.len() ==> !is_white(#[trigger] word[i]),
    ensures
        word_at_end(before + word) == word,
    decreases word.len(),
{
    let line = before + word;
    if word.len() == 0 {
        assert(line =~= before);
        assert(word =~= Seq::empty());
    } else {
        assert(line.drop_last() =~= before + word.drop_last());
        assert(!is_white(line.last()));
        lemma_word_at_end(before, word.drop_last());
        assert(word.drop_last().push(word.last()) =~= word);
    }
}

/// A line of `git ls-remote` is about the version its last word names as a tag, and
/// about none where that word is no tag.
pub proof fn law_a_line_is_about_its_tag(before: Seq<char>, name: Seq<char>, other: Seq<char>)
    requires
        before.len() == 0 || is_white(before.last()),
        forall|i: int| 0 <= i < name.len() ==> !is_white(#[trigger] name[i]),
        other.len() > 0,
        forall|i: int| 0 <= i < other.len() ==> !is_white(#[trigger] other[i]),
        !"refs/tags/"@.is_prefix_of(other),
    ensures
        tag_on(before + "refs/tags/"@ + name) == Version::named(name),
        tag_on(before + other) is None,
{
    reveal_strlit("refs/tags/");
    let word = "refs/tags/"@ + name;
    assert(before + "refs/tags/"@ + name =~= before + word);
    assert(word.skip(10) =~= name);
    lemma_word_at_end(before, word);
    lemma_word_at_end(before, other);
    assert(!is_white((before + word).last()));
    assert(!is_white((before + other).last()));
    assert("refs/tags/"@.is_prefix_of(word));
}

} // verus!

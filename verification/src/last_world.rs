//! Which world was open last, in a small file that syncs with the pins:
//!
//! ```text
//! world: ideas
//! at: 1790000000
//! ```
//!
//! `at` is when that world became the recorded one, in Unix seconds.

use crate::pinfile::{field, field_of, lookup};
use crate::text::{
    chars_of, decimal, is_white, lines_of, number_upto, opt_str, parse_upto, push_decimal,
    push_text, same_str, string_of,
};
use vstd::prelude::*;

verus! {

/// The file's name. Hidden, so it is not read as a board.
pub open spec fn world_file() -> Seq<char> {
    ".pinz-world"@
}

/// The file's name. Hidden, so it is not read as a board. Not ignored by git:
/// the whole point is that it syncs.
pub fn world_file_name() -> (name: &'static str)
    ensures
        name@ == world_file(),
{
    ".pinz-world"
}

/// The world a file records, and since when.
pub struct Recorded {
    pub world: Seq<char>,
    pub at: int,
}

/// What a file records. A file that names no world, or no
/// time, records nothing.
pub open spec fn recorded(text: Seq<char>) -> Option<Recorded> {
    let world = field_of(Some(text), "world"@);
    let at = field_of(Some(text), "at"@);
    if world is Some && world->0.len() > 0 && at is Some && number_upto(
        at->0,
        u64::MAX as int,
    ) is Some {
        Some(Recorded { world: world->0, at: number_upto(at->0, u64::MAX as int)->0 })
    } else {
        None
    }
}

/// The file that records a world.
pub open spec fn record(world: Seq<char>, at: nat) -> Seq<char> {
    "world: "@ + world + "\nat: "@ + decimal(at) + "\n"@
}

fn read_record(text: &str) -> (out: Option<(String, u64)>)
    ensures
        match out {
            Some((world, at)) => recorded(text@) == Some(Recorded { world: world@, at: at as int }),
            None => recorded(text@) is None,
        },
{
    let block = Some(chars_of(text));
    let world = lookup(&block, "world");
    let at = lookup(&block, "at");
    match (world, at) {
        (Some(world), Some(at)) => {
            if world.as_str().is_empty() {
                return None;
            }
            match parse_upto(&chars_of(&at), u64::MAX) {
                Some(at) => Some((world, at)),
                None => None,
            }
        },
        _ => None,
    }
}

/// The world the last session closed on. A missing or unreadable record is none.
pub fn load_last_world(text: Option<&str>) -> (world: Option<String>)
    ensures
        opt_str(world) == (match text {
            Some(text) => match recorded(text@) {
                Some(r) => Some(r.world),
                None => None,
            },
            None => None,
        }),
{
    match text {
        Some(text) => match read_record(text) {
            Some((world, at)) => Some(world),
            None => None,
        },
        None => None,
    }
}

/// What to write to record that a world is open, if anything: writing the same
/// world again leaves the file untouched, so staying in one world adds no
/// commits.
pub fn save_last_world(text: Option<&str>, world: &str, now: u64) -> (out: Option<String>)
    ensures
        opt_str(out) == (if text is Some && recorded(text->0@) is Some && recorded(text->0@)->0.world
            == world@ {
            None
        } else {
            Some(record(world@, now as nat))
        }),
{
    if let Some(text) = text {
        if let Some((open, at)) = read_record(text) {
            if same_str(&open, world) {
                return None;
            }
        }
    }
    let mut out = chars_of("world: ");
    push_text(&mut out, world);
    push_text(&mut out, "\nat: ");
    push_decimal(&mut out, now);
    push_text(&mut out, "\n");
    proof {
        assert(out@ =~= record(world@, now as nat));
    }
    Some(string_of(&out))
}

/// Which side of a conflict to keep: the later record, the local one on a tie
/// or where a side cannot be read.
pub open spec fn settled(remote: Seq<char>, local: Seq<char>) -> Seq<char> {
    if recorded(remote) is Some && recorded(local) is Some && recorded(remote)->0.at > recorded(
        local,
    )->0.at {
        remote
    } else {
        local
    }
}

/// Settle a conflict between two records: two machines that both switched
/// worlds would otherwise block the pins from syncing too.
pub fn settle_world(remote: &str, local: &str) -> (out: String)
    ensures
        out@ == settled(remote@, local@),
{
    if let (Some((_, theirs)), Some((_, ours))) = (read_record(remote), read_record(local)) {
        if theirs > ours {
            return remote.to_owned();
        }
    }
    local.to_owned()
}

/// A recorded world reads back as it was recorded.
pub proof fn law_a_world_reads_back(world: Seq<char>, at: nat)
    requires
        at <= u64::MAX,
        world.len() > 0,
        !is_white(world[0]),
        !is_white(world.last()),
        !world.contains('\n'),
    ensures
        recorded(record(world, at)) == Some(Recorded { world, at: at as int }),
{
    let text = record(world, at);
    reveal_strlit("world: ");
    reveal_strlit("\nat: ");
    reveal_strlit("\n");
    reveal_strlit("world");
    reveal_strlit("at");
    crate::text::law_decimal_round_trips(at);
    let d = decimal(at);
    let one = "world"@ + seq![':', ' '] + world;
    let two = "at"@ + seq![':', ' '] + d;
    assert(text =~= (one.push('\n') + two).push('\n') + Seq::<char>::empty());
    assert forall|i: int| 0 <= i < one.len() implies one[i] != '\n' by {
        if i >= 7 {
            assert(one[i] == world[i - 7]);
            assert(world.contains(world[i - 7]));
        }
    }
    assert forall|i: int| 0 <= i < two.len() implies two[i] != '\n' by {
        if i >= 4 {
            assert(two[i] == d[i - 4]);
            assert(crate::text::is_digit(d[i - 4]));
        }
    }
    crate::text::lemma_split_one(one, '\n');
    crate::text::lemma_split_tail(one, two, '\n');
    crate::text::lemma_split_tail(one.push('\n') + two, Seq::empty(), '\n');
    let lines = lines_of(text);
    assert(one.last() == world.last());
    assert(two.last() == d.last() && crate::text::is_digit(d[d.len() - 1]));
    assert(lines =~= seq![one, two]);
    assert(crate::text::is_digit(d[0]));
    assert("world"@[0] != "at"@[0]);
    crate::pinfile::lemma_key_and_value("world"@, world, "at"@);
    crate::pinfile::lemma_key_and_value("at"@, d, "world"@);
    reveal_with_fuel(field, 3);
}

/// Both machines settle on the same record when one is later.
pub proof fn law_settling_agrees(a: Seq<char>, b: Seq<char>)
    requires
        recorded(a) is Some,
        recorded(b) is Some,
        recorded(a)->0.at != recorded(b)->0.at,
    ensures
        settled(a, b) == settled(b, a),
{
}

/// Of two records that can be read the later one is kept; where they are as late, or
/// one cannot be read, this machine's is.
pub proof fn law_the_later_record_is_kept(remote: Seq<char>, local: Seq<char>)
    ensures
        settled(remote, local) == remote || settled(remote, local) == local,
        recorded(remote) is None || recorded(local) is None ==> settled(remote, local) == local,
        recorded(remote) is Some && recorded(local) is Some ==> ({
            let kept = recorded(settled(remote, local))->0;
            &&& kept.at >= recorded(remote)->0.at
            &&& kept.at >= recorded(local)->0.at
            &&& recorded(remote)->0.at <= recorded(local)->0.at ==> settled(remote, local) == local
        }),
{
}

} // verus!

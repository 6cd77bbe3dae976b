//! Three-way merge of a single pin file, for sync conflicts.
//!
//! A pin file has two layers that fail differently: the **content** (title and
//! body, the part a human wrote) and the **cosmetics** (the frontmatter
//! position fields plus color, the part the board writes when pins are moved
//! around). Git sees one text file and conflicts on either; this module knows
//! the difference, so a pin moved on one machine and edited on the other can
//! merge cleanly instead of stopping the sync.
//!
//! Content merges only when at most one side changed it; each cosmetic field
//! takes the side that changed it, and a cosmetic tie goes to the local side.
//! Anything this module cannot decide returns `None`, and the caller stops.

use crate::model::{Note, NoteView};
use crate::pinfile::{parse_pin, parsed, render_pin, rendered};
use crate::text::{opt_str, same_str};
use vstd::prelude::*;

verus! {

/// One cosmetic field: the side that changed it wins, and a tie goes to local.
pub open spec fn picked<T>(base: Option<T>, remote: T, local: T) -> T {
    if base == Some(local) {
        remote
    } else {
        local
    }
}

/// Which side's content to keep, if that can be decided: either where they
/// agree, and otherwise the one side that changed it.
pub open spec fn content_side(base: Option<NoteView>, remote: NoteView, local: NoteView) -> Option<
    NoteView,
> {
    if local.title == remote.title && local.body == remote.body {
        Some(local)
    } else {
        match base {
            None => None,
            Some(b) => if local.title == b.title && local.body == b.body {
                Some(remote)
            } else if remote.title == b.title && remote.body == b.body {
                Some(local)
            } else {
                None
            },
        }
    }
}

/// The merged pin, if the content can be decided.
pub open spec fn merged_note(base: Option<NoteView>, remote: NoteView, local: NoteView) -> Option<
    NoteView,
> {
    match content_side(base, remote, local) {
        None => None,
        Some(c) => Some(
            NoteView {
                id: 0,
                title: c.title,
                body: c.body,
                x: picked(
                    match base {
                        Some(b) => Some(b.x),
                        None => None,
                    },
                    remote.x,
                    local.x,
                ),
                y: picked(
                    match base {
                        Some(b) => Some(b.y),
                        None => None,
                    },
                    remote.y,
                    local.y,
                ),
                z: picked(
                    match base {
                        Some(b) => Some(b.z),
                        None => None,
                    },
                    remote.z,
                    local.z,
                ),
                color: picked(
                    match base {
                        Some(b) => Some(b.color),
                        None => None,
                    },
                    remote.color,
                    local.color,
                ),
            },
        ),
    }
}

/// The merge of three versions of a file.
pub open spec fn merged(base: Option<Seq<char>>, remote: Seq<char>, local: Seq<char>) -> Option<
    Seq<char>,
> {
    let b = match base {
        Some(t) => Some(parsed(t, 0)),
        None => None,
    };
    match merged_note(b, parsed(remote, 0), parsed(local, 0)) {
        Some(n) => Some(rendered(n)),
        None => None,
    }
}

pub open spec fn opt_text(s: Option<&str>) -> Option<Seq<char>> {
    match s {
        Some(s) => Some(s@),
        None => None,
    }
}

pub open spec fn opt_note(n: Option<Note>) -> Option<NoteView> {
    match n {
        Some(n) => Some(n@),
        None => None,
    }
}

/// Try to merge one conflicted pin file.
///
/// `local` is this machine's version, `remote` the other machine's, `base`
/// their common ancestor (absent when both machines created the file
/// independently). Returns the merged file contents, or `None` when both
/// sides changed the content differently - that is a judgement call and a
/// human makes it.
pub fn merge_pin(base: Option<&str>, remote: &str, local: &str) -> (out: Option<String>)
    ensures
        opt_str(out) == merged(opt_text(base), remote@, local@),
{
    // The id is transport, not data: it exists so a loaded board can address
    // notes, and never reaches the file. Any value works here.
    let base = match base {
        Some(b) => Some(parse_pin(b, 0)),
        None => None,
    };
    let remote = parse_pin(remote, 0);
    let local = parse_pin(local, 0);
    let (title, body) = match merge_content(&base, &remote, &local) {
        Some(pair) => pair,
        None => return None,
    };
    let (bx, by, bz, bc) = match &base {
        Some(b) => (Some(b.x), Some(b.y), Some(b.z), Some(b.color)),
        None => (None, None, None, None),
    };
    let note = Note {
        id: 0,
        title,
        body,
        x: pick_place(bx, remote.x, local.x),
        y: pick_place(by, remote.y, local.y),
        z: match bz {
            Some(b) => if b == local.z {
                remote.z
            } else {
                local.z
            },
            None => local.z,
        },
        color: match bc {
            Some(b) => if b == local.color {
                remote.color
            } else {
                local.color
            },
            None => local.color,
        },
    };
    proof {
        assert(Some(note@) =~= merged_note(opt_note(base), remote@, local@));
    }
    Some(render_pin(&note))
}

/// One coordinate: the side that changed it wins, and a tie goes to local - the
/// person at this board arranged it this way most recently in their own view.
fn pick_place(base: Option<i128>, remote: i128, local: i128) -> (v: i128)
    ensures
        v == picked(base, remote, local),
{
    match base {
        Some(b) => if b == local {
            remote
        } else {
            local
        },
        None => local,
    }
}

fn same_content(a: &Note, b: &Note) -> (r: bool)
    ensures
        r == (a@.title == b@.title && a@.body == b@.body),
{
    same_str(&a.title, &b.title) && same_str(&a.body, &b.body)
}

/// The content layer: merges only when at most one side changed it.
fn merge_content(base: &Option<Note>, remote: &Note, local: &Note) -> (out: Option<
    (String, String),
>)
    ensures
        match (out, content_side(opt_note(*base), remote@, local@)) {
            (Some((title, body)), Some(n)) => title@ == n.title && body@ == n.body,
            (None, None) => true,
            _ => false,
        },
{
    if same_content(local, remote) {
        return Some((local.title.clone(), local.body.clone()));
    }
    let base = match base {
        Some(b) => b,
        None => return None,
    };
    if same_content(local, base) {
        return Some((remote.title.clone(), remote.body.clone()));
    }
    if same_content(remote, base) {
        return Some((local.title.clone(), local.body.clone()));
    }
    None
}

// ---- laws ----

/// A side that changed nothing loses nothing and adds nothing: the merge is the
/// other side's pin.
pub proof fn law_an_unchanged_side_yields(base: NoteView, other: NoteView)
    ensures
        merged_note(Some(base), other, base) == Some(NoteView { id: 0, ..other }),
        merged_note(Some(base), base, other) == Some(NoteView { id: 0, ..other }),
{
}

/// The same edit made on both sides merges to that edit, base or no base.
pub proof fn law_the_same_edit_merges(base: Option<NoteView>, n: NoteView)
    ensures
        merged_note(base, n, n) == Some(NoteView { id: 0, ..n }),
{
}

/// Two different contents never merge unless one of them is the base's: text is
/// never guessed at, and never mixed.
pub proof fn law_content_is_never_guessed(base: Option<NoteView>, remote: NoteView, local: NoteView)
    ensures
        merged_note(base, remote, local) matches Some(m) ==> {
            ||| (m.title == local.title && m.body == local.body)
            ||| (m.title == remote.title && m.body == remote.body)
        },
        merged_note(base, remote, local) is None <==> {
            &&& !(local.title == remote.title && local.body == remote.body)
            &&& base matches Some(b) ==> !(local.title == b.title && local.body == b.body) && !(
            remote.title == b.title && remote.body == b.body)
        },
{
}

/// Both sides stop together: whether a merge is possible does not depend on
/// which side is called local.
pub proof fn law_stopping_is_symmetric(base: Option<NoteView>, a: NoteView, b: NoteView)
    ensures
        merged_note(base, a, b) is None <==> merged_note(base, b, a) is None,
{
}

/// A merged file is one the renderer would have written: reading it and writing
/// it again gives the same file.
pub proof fn law_a_merge_is_well_formed(
    base: Option<Seq<char>>,
    remote: Seq<char>,
    local: Seq<char>,
    id: u64,
)
    ensures
        merged(base, remote, local) matches Some(m) ==> rendered(parsed(m, id)) == m,
{
    let b = match base {
        Some(t) => Some(parsed(t, 0)),
        None => None,
    };
    let (r, l) = (parsed(remote, 0), parsed(local, 0));
    if let Some(n) = merged_note(b, r, l) {
        crate::pinfile::lemma_parsed_shape(remote, 0);
        crate::pinfile::lemma_parsed_shape(local, 0);
        crate::pinfile::law_a_pin_round_trips(n, id);
        crate::coord::law_units_round(n.x as int);
        crate::coord::law_units_round(n.y as int);
        let again = parsed(rendered(n), id);
        assert(crate::pinfile::header_lines(again) =~= crate::pinfile::header_lines(n));
    }
}

/// Each of a pin's place, stacking and color is merged on its own: what this
/// machine changed, or what both made without a common start, stays as this
/// machine has it, and what it left alone is as the other machine has it.
pub proof fn law_each_field_goes_to_the_side_that_changed_it(
    base: Option<NoteView>,
    remote: NoteView,
    local: NoteView,
)
    ensures
        merged_note(base, remote, local) matches Some(m) ==> {
            &&& (base matches Some(b) ==> b.x != local.x) ==> m.x == local.x
            &&& (base matches Some(b) ==> b.y != local.y) ==> m.y == local.y
            &&& (base matches Some(b) ==> b.z != local.z) ==> m.z == local.z
            &&& (base matches Some(b) ==> b.color != local.color) ==> m.color == local.color
            &&& base matches Some(b) ==> {
                &&& b.x == local.x ==> m.x == remote.x
                &&& b.y == local.y ==> m.y == remote.y
                &&& b.z == local.z ==> m.z == remote.z
                &&& b.color == local.color ==> m.color == remote.color
            }
        },
{
}

/// Text goes to the side that changed it, whole: a title never comes from one
/// machine and the body under it from the other.
pub proof fn law_text_goes_to_the_side_that_changed_it(
    base: NoteView,
    remote: NoteView,
    local: NoteView,
)
    ensures
        merged_note(Some(base), remote, local) matches Some(m) ==> {
            &&& (local.title != base.title || local.body != base.body) ==> m.title == local.title
                && m.body == local.body
            &&& (remote.title != base.title || remote.body != base.body) ==> m.title == remote.title
                && m.body == remote.body
        },
        local.title == base.title && local.body == base.body ==> merged_note(
            Some(base),
            remote,
            local,
        ) is Some,
        remote.title == base.title && remote.body == base.body ==> merged_note(
            Some(base),
            remote,
            local,
        ) is Some,
{
}

/// The file a merge leaves holds the merged pin: read back, every part of it is
/// what one of the two files held, and the one that changed it. A place is read
/// back to the nearest whole unit, as it is from any file.
pub proof fn law_a_merged_file_reads_back(
    base: Seq<char>,
    remote: Seq<char>,
    local: Seq<char>,
    id: u64,
)
    ensures
        merged(Some(base), remote, local) matches Some(text) ==> {
            let (b, r, l, m) = (parsed(base, 0), parsed(remote, 0), parsed(local, 0), parsed(text, id));
            let x = if l.x == b.x { r.x } else { l.x };
            let y = if l.y == b.y { r.y } else { l.y };
            &&& m.x == crate::coord::units(x as int) * 7140
            &&& m.y == crate::coord::units(y as int) * 7140
            &&& m.z == (if l.z == b.z { r.z } else { l.z })
            &&& m.color == (if l.color == b.color { r.color } else { l.color })
            &&& m.title == l.title && m.body == l.body || m.title == r.title && m.body == r.body
            &&& (l.title != b.title || l.body != b.body) ==> m.title == l.title && m.body == l.body
            &&& (r.title != b.title || r.body != b.body) ==> m.title == r.title && m.body == r.body
        },
        merged(None, remote, local) matches Some(text) ==> {
            let (r, l, m) = (parsed(remote, 0), parsed(local, 0), parsed(text, id));
            &&& m.x == crate::coord::units(l.x as int) * 7140
            &&& m.y == crate::coord::units(l.y as int) * 7140
            &&& m.z == l.z && m.color == l.color
            &&& m.title == l.title && m.body == l.body
            &&& m.title == r.title && m.body == r.body
        },
        merged(Some(base), remote, local) is None <==> {
            let (b, r, l) = (parsed(base, 0), parsed(remote, 0), parsed(local, 0));
            &&& l.title != r.title || l.body != r.body
            &&& l.title != b.title || l.body != b.body
            &&& r.title != b.title || r.body != b.body
        },
        merged(None, remote, local) is None <==> {
            let (r, l) = (parsed(remote, 0), parsed(local, 0));
            l.title != r.title || l.body != r.body
        },
{
    crate::pinfile::lemma_parsed_shape(remote, 0);
    crate::pinfile::lemma_parsed_shape(local, 0);
    let (r, l) = (parsed(remote, 0), parsed(local, 0));
    if let Some(n) = merged_note(Some(parsed(base, 0)), r, l) {
        crate::pinfile::law_a_pin_round_trips(n, id);
    }
    if let Some(n) = merged_note(None, r, l) {
        crate::pinfile::law_a_pin_round_trips(n, id);
    }
}

} // verus!

//! The pin file format: a small frontmatter header with the spatial metadata,
//! then the text as ordinary markdown.
//!
//! ```text
//! ---
//! x: 720
//! y: 380
//! z: 4
//! color: green
//! ---
//! # buy a new lamp
//!
//! The one by the desk flickers.
//! ```

use crate::coord::{coordinate, parse_coordinate, to_units, units, EDGE};
use crate::model::{Color, Note, NoteView};
use crate::text::{
    chars_of, decimal, is_white, lines, lines_of, number_upto, occurs_at, parse_upto, push_all,
    push_decimal, push_signed, push_text, same_chars, signed_decimal, stands_at, string_of, sub_vec,
    trim, trim_end, trimmed, trimmed_end, white,
};
use vstd::prelude::*;

verus! {

/// The header's four lines.
pub open spec fn header_lines(n: NoteView) -> Seq<Seq<char>> {
    seq![
        "x: "@ + signed_decimal(units(n.x as int)),
        "y: "@ + signed_decimal(units(n.y as int)),
        "z: "@ + decimal(n.z as nat),
        "color: "@ + n.color.name(),
    ]
}

/// A pin as file contents: the header between two fences, the title as a
/// heading, then the body, if there is one, with nothing trailing.
pub open spec fn rendered(n: NoteView) -> Seq<char> {
    "---\n"@ + crate::text::join(header_lines(n), '\n') + "\n---\n# "@ + n.title + "\n"@ + if n.body.len()
        == 0 {
        Seq::empty()
    } else {
        "\n"@ + trim_end(n.body) + "\n"@
    }
}

/// A pin as file contents: frontmatter, the title as an H1, then the body.
pub fn render_pin(note: &Note) -> (out: String)
    ensures
        out@ == rendered(note@),
{
    let mut out = chars_of("---\nx: ");
    push_signed(&mut out, to_units(note.x));
    push_text(&mut out, "\ny: ");
    push_signed(&mut out, to_units(note.y));
    push_text(&mut out, "\nz: ");
    push_decimal(&mut out, note.z as u64);
    push_text(&mut out, "\ncolor: ");
    push_text(&mut out, note.color.as_str());
    push_text(&mut out, "\n---\n# ");
    push_text(&mut out, &note.title);
    push_text(&mut out, "\n");
    let ghost head = out@;
    proof {
        lemma_header(note@);
        assert(head =~= "---\n"@ + crate::text::join(header_lines(note@), '\n') + "\n---\n# "@
            + note@.title + "\n"@) by {
            reveal_strlit("---\nx: ");
            reveal_strlit("---\n");
            reveal_strlit("x: ");
            assert("---\nx: "@ =~= "---\n"@ + "x: "@);
            reveal_strlit("\ny: ");
            reveal_strlit("y: ");
            assert("\ny: "@ =~= seq!['\n'] + "y: "@);
            reveal_strlit("\nz: ");
            reveal_strlit("z: ");
            assert("\nz: "@ =~= seq!['\n'] + "z: "@);
            reveal_strlit("\ncolor: ");
            reveal_strlit("color: ");
            assert("\ncolor: "@ =~= seq!['\n'] + "color: "@);
        }
    }
    if !note.body.as_str().is_empty() {
        push_text(&mut out, "\n");
        let body = trimmed_end(&chars_of(&note.body));
        push_all(&mut out, &body);
        push_text(&mut out, "\n");
        proof {
            assert(out@ =~= rendered(note@));
        }
    } else {
        proof {
            assert(out@ =~= rendered(note@));
        }
    }
    string_of(&out)
}

/// The header written out.
proof fn lemma_header(n: NoteView)
    ensures
        crate::text::join(header_lines(n), '\n') == "x: "@ + signed_decimal(units(n.x as int))
            + seq!['\n'] + ("y: "@ + signed_decimal(units(n.y as int))) + seq!['\n'] + ("z: "@
            + decimal(n.z as nat)) + seq!['\n'] + ("color: "@ + n.color.name()),
{
    let h = header_lines(n);
    reveal_with_fuel(crate::text::join, 5);
    assert(h.drop_last().drop_last().drop_last() =~= seq![h[0]]);
    let j = crate::text::join(h, '\n');
    assert(j =~= "x: "@ + signed_decimal(units(n.x as int)) + seq!['\n'] + ("y: "@
        + signed_decimal(units(n.y as int))) + seq!['\n'] + ("z: "@ + decimal(n.z as nat)) + seq![
        '\n',
    ] + ("color: "@ + n.color.name()));
}

/// Where `needle` first stands in `hay`, from `from` on.
pub open spec fn find(hay: Seq<char>, needle: Seq<char>, from: int) -> Option<int>
    decreases hay.len() - from + 1,
{
    if from < 0 || from > hay.len() {
        None
    } else if occurs_at(needle, hay, from) {
        Some(from)
    } else {
        find(hay, needle, from + 1)
    }
}

/// Where `needle` first stands in `hay`.
fn find_in(hay: &[char], needle: &[char]) -> (out: Option<usize>)
    ensures
        match out {
            Some(i) => find(hay@, needle@, 0) == Some(i as int) && occurs_at(
                needle@,
                hay@,
                i as int,
            ),
            None => find(hay@, needle@, 0) is None,
        },
{
    let mut i: usize = 0;
    let end: usize = hay.len();
    while i < end
        invariant
            i <= end,
            end == hay@.len(),
            find(hay@, needle@, 0) == find(hay@, needle@, i as int),
        decreases end - i,
    {
        if stands_at(needle, hay, i) {
            return Some(i);
        }
        i += 1;
    }
    if stands_at(needle, hay, end) {
        Some(end)
    } else {
        assert(find(hay@, needle@, end + 1) is None);
        None
    }
}

/// The text without the white space that stands before anything else on its
/// first line.
pub open spec fn past_blanks(s: Seq<char>) -> Seq<char>
    decreases s.len(),
{
    if s.len() > 0 && s[0] != '\n' && is_white(s[0]) {
        past_blanks(s.skip(1))
    } else {
        s
    }
}

/// The text under a closing fence, from what follows its dashes. Blanks after the
/// dashes are not text; anything else that stands on their line is.
pub open spec fn under_fence(tail: Seq<char>) -> Seq<char> {
    let line = past_blanks(tail);
    if line.len() == 0 {
        line
    } else if line[0] == '\n' {
        line.skip(1)
    } else {
        tail
    }
}

/// The header block of a file and the text under it. A file with no header, or
/// one that is never closed, is all text.
pub open spec fn front(text: Seq<char>) -> (Option<Seq<char>>, Seq<char>) {
    let after = text.skip(4);
    let end = find(after, "\n---"@, 0);
    if !occurs_at("---\n"@, text, 0) || end is None {
        (None, text)
    } else {
        let tail = after.skip(end->0 + 4);
        (Some(after.take(end->0)), under_fence(tail))
    }
}

/// Where a line's first colon is.
pub open spec fn colon(line: Seq<char>, from: int) -> Option<int>
    decreases line.len() - from,
{
    if from < 0 || from >= line.len() {
        None
    } else if line[from] == ':' {
        Some(from)
    } else {
        colon(line, from + 1)
    }
}

/// The value a line gives a key, if it is about that key.
pub open spec fn value_in(line: Seq<char>, key: Seq<char>) -> Option<Seq<char>> {
    match colon(line, 0) {
        Some(i) => if trim(line.take(i)) == key {
            Some(trim(line.skip(i + 1)))
        } else {
            None
        },
        None => None,
    }
}

/// The value the first `n` lines give a key: the last one to speak of it has
/// the say.
pub open spec fn field(lines: Seq<Seq<char>>, key: Seq<char>, n: int) -> Option<Seq<char>>
    decreases n,
{
    if n <= 0 {
        None
    } else if value_in(lines[n - 1], key) is Some {
        value_in(lines[n - 1], key)
    } else {
        field(lines, key, n - 1)
    }
}

/// A field of a header block.
pub open spec fn field_of(block: Option<Seq<char>>, key: Seq<char>) -> Option<Seq<char>> {
    match block {
        Some(b) => field(lines_of(b), key, lines_of(b).len() as int),
        None => None,
    }
}

/// The whole number a field spells: digits, with a plus sign before them or
/// not, of a size that fits.
pub open spec fn count_of(s: Seq<char>) -> Option<int> {
    number_upto(
        if s.len() > 0 && s[0] == '+' {
            s.skip(1)
        } else {
            s
        },
        u32::MAX as int,
    )
}

/// The text without the newlines at its start.
pub open spec fn past_newlines(s: Seq<char>) -> Seq<char>
    decreases s.len(),
{
    if s.len() > 0 && s[0] == '\n' {
        past_newlines(s.skip(1))
    } else {
        s
    }
}

/// The title: the first line that is not blank, without its heading mark.
pub open spec fn title_in(text: Seq<char>) -> Seq<char> {
    let first = crate::state::title_of(past_newlines(text));
    if occurs_at("# "@, first, 0) {
        first.skip(2)
    } else {
        first
    }
}

/// A body without one blank separator line.
pub open spec fn unspaced(under: Seq<char>) -> Seq<char> {
    if under.len() > 0 && under[0] == '\n' {
        under.skip(1)
    } else {
        under
    }
}

/// The body: what is under the title, without one blank separator line and
/// without what trails.
pub open spec fn body_in(text: Seq<char>) -> Seq<char> {
    trim_end(unspaced(crate::state::body_of(past_newlines(text))))
}

/// A file's contents as a pin. Whatever is missing or unreadable has a
/// fallback: the origin, the bottom of the stack, yellow.
pub open spec fn parsed(text: Seq<char>, id: u64) -> NoteView {
    let (block, rest) = front(text);
    let x = field_of(block, "x"@);
    let y = field_of(block, "y"@);
    let z = field_of(block, "z"@);
    let color = field_of(block, "color"@);
    NoteView {
        id,
        title: title_in(rest),
        body: body_in(rest),
        x: if x is Some && coordinate(x->0) is Some {
            (coordinate(x->0)->0) as i128
        } else {
            0
        },
        y: if y is Some && coordinate(y->0) is Some {
            (coordinate(y->0)->0) as i128
        } else {
            0
        },
        z: if z is Some && count_of(z->0) is Some {
            (count_of(z->0)->0) as u32
        } else {
            0
        },
        color: if color is Some && Color::named(color->0) is Some {
            Color::named(color->0)->0
        } else {
            Color::Yellow
        },
    }
}

fn colon_at(line: &[char]) -> (out: Option<usize>)
    ensures
        match out {
            Some(i) => i < line@.len() && colon(line@, 0) == Some(i as int),
            None => colon(line@, 0) is None,
        },
{
    let mut i: usize = 0;
    while i < line.len()
        invariant
            i <= line@.len(),
            colon(line@, 0) == colon(line@, i as int),
        decreases line@.len() - i,
    {
        if line[i] == ':' {
            return Some(i);
        }
        i += 1;
    }
    None
}

/// The value a line gives a key.
fn line_value(line: &[char], key: &[char]) -> (out: Option<Vec<char>>)
    ensures
        match out {
            Some(v) => value_in(line@, key@) == Some(v@),
            None => value_in(line@, key@) is None,
        },
{
    match colon_at(line) {
        None => None,
        Some(i) => {
            let before = trimmed(vstd::slice::slice_subrange(line, 0, i));
            assert(line@.subrange(0, i as int) =~= line@.take(i as int));
            if same_chars(&before, key) {
                let end: usize = line.len();
                let after = vstd::slice::slice_subrange(line, i + 1, end);
                assert(after@ =~= line@.skip(i + 1));
                Some(trimmed(after))
            } else {
                None
            }
        },
    }
}

/// A field of a header's lines, as a string.
pub(crate) fn lookup(block: &Option<Vec<char>>, key: &str) -> (out: Option<String>)
    ensures
        match out {
            Some(v) => field_of(opt_chars(*block), key@) == Some(v@),
            None => field_of(opt_chars(*block), key@) is None,
        },
{
    let all = match block {
        Some(b) => lines(b),
        None => return None,
    };
    let ghost want = lines_of(block->0@);
    let name = chars_of(key);
    let mut n: usize = all.len();
    while n > 0
        invariant
            n <= all@.len(),
            all@.len() == want.len(),
            forall|i: int| 0 <= i < all@.len() ==> (#[trigger] all@[i])@ == want[i],
            name@ == key@,
            field(want, key@, want.len() as int) == field(want, key@, n as int),
            block is Some,
            want == lines_of(block->0@),
        decreases n,
    {
        if let Some(v) = line_value(&all[n - 1], &name) {
            return Some(string_of(&v));
        }
        n -= 1;
    }
    None
}

pub open spec fn opt_chars(v: Option<Vec<char>>) -> Option<Seq<char>> {
    match v {
        Some(v) => Some(v@),
        None => None,
    }
}

/// The text under a closing fence, from what follows its dashes.
fn below_fence(tail: &[char]) -> (rest: Vec<char>)
    ensures
        rest@ == under_fence(tail@),
{
    let mut i: usize = 0;
    assert(tail@.skip(0) =~= tail@);
    while i < tail.len() && tail[i] != '\n' && white(tail[i])
        invariant
            i <= tail@.len(),
            past_blanks(tail@) == past_blanks(tail@.skip(i as int)),
        decreases tail@.len() - i,
    {
        assert(tail@.skip(i as int).skip(1) =~= tail@.skip(i + 1));
        i += 1;
    }
    let ghost line = tail@.skip(i as int);
    assert(past_blanks(tail@) == line);
    let from: usize = if i == tail.len() {
        i
    } else if tail[i] == '\n' {
        i + 1
    } else {
        0
    };
    let rest = sub_vec(tail, from, tail.len());
    proof {
        if i < tail@.len() && tail@[i as int] == '\n' {
            assert(rest@ =~= line.skip(1));
        } else if i == tail@.len() {
            assert(rest@ =~= line);
        } else {
            assert(rest@ =~= tail@);
        }
    }
    rest
}

/// Split a leading `---` block off, returning the block and the remaining text.
/// No frontmatter means no block and the text unchanged.
fn split_frontmatter(text: &[char]) -> (out: (Option<Vec<char>>, Vec<char>))
    ensures
        (opt_chars(out.0), out.1@) == front(text@),
{
    let fence = chars_of("---\n");
    proof {
        reveal_strlit("---\n");
        reveal_strlit("\n---");
        assert(text@.subrange(0, text@.len() as int) =~= text@);
    }
    if !stands_at(&fence, text, 0) {
        return (None, sub_vec(text, 0, text.len()));
    }
    let after = sub_vec(text, 4, text.len());
    assert(after@ =~= text@.skip(4));
    match find_in(&after, &chars_of("\n---")) {
        None => (None, sub_vec(text, 0, text.len())),  // unterminated: all of it is text
        Some(end) => {
            let block = sub_vec(&after, 0, end);
            assert(block@ =~= after@.take(end as int));
            let tail = sub_vec(&after, end + 4, after.len());
            assert(tail@ =~= after@.skip(end + 4));
            (Some(block), below_fence(&tail))
        },
    }
}

/// First line is the title (with its `# ` stripped if present), the rest is the
/// body, minus one blank separator line.
fn split_title_and_body(text: &[char]) -> (out: (String, String))
    ensures
        out.0@ == title_in(text@),
        out.1@ == body_in(text@),
{
    let mut start: usize = 0;
    proof {
        assert(text@.skip(0) =~= text@);
    }
    while start < text.len() && text[start] == '\n'
        invariant
            start <= text@.len(),
            past_newlines(text@.skip(start as int)) == past_newlines(text@),
        decreases text@.len() - start,
    {
        proof {
            assert(text@.skip(start as int).skip(1) =~= text@.skip(start + 1));
        }
        start += 1;
    }
    let ghost whole = text@;
    let text = sub_vec(text, start, text.len());
    proof {
        assert(text@ =~= whole.skip(start as int));
        assert(past_newlines(text@) == text@);
    }
    let (first, rest) = match crate::app::newline_at(&text) {
        Some(i) => (sub_vec(&text, 0, i), sub_vec(&text, i + 1, text.len())),
        None => (sub_vec(&text, 0, text.len()), Vec::new()),
    };
    proof {
        assert(first@ =~= crate::state::title_of(text@));
        assert(rest@ =~= crate::state::body_of(text@));
        reveal_strlit("# ");
    }
    let title = if stands_at(&chars_of("# "), &first, 0) {
        let t = sub_vec(&first, 2, first.len());
        assert(t@ =~= first@.skip(2));
        t
    } else {
        first
    };
    let body = if rest.len() > 0 && rest[0] == '\n' {
        let b = sub_vec(&rest, 1, rest.len());
        assert(b@ =~= rest@.skip(1));
        b
    } else {
        rest
    };
    (string_of(&title), string_of(&trimmed_end(&body)))
}

/// The whole number a field spells.
pub(crate) fn parse_count(s: &str) -> (out: Option<u32>)
    ensures
        match out {
            Some(n) => count_of(s@) == Some(n as int),
            None => count_of(s@) is None,
        },
{
    let chars = chars_of(s);
    let start: usize = if chars.len() > 0 && chars[0] == '+' {
        1
    } else {
        0
    };
    let digits = sub_vec(&chars, start, chars.len());
    proof {
        if start == 1 {
            assert(digits@ =~= s@.skip(1));
        } else {
            assert(digits@ =~= s@);
        }
    }
    match parse_upto(&digits, u32::MAX as u64) {
        Some(n) => Some(n as u32),
        None => None,
    }
}

/// Parse file contents into a note with the given id.
///
/// Deliberately forgiving: a hand-written file with no frontmatter, or a missing
/// field, still loads as a pin at the origin rather than failing the whole
/// board. Losing a note's text to a strict parser would be the worse outcome.
pub fn parse_pin(text: &str, id: u64) -> (note: Note)
    ensures
        note@ == parsed(text@, id),
        -EDGE * 7140 <= note.x <= EDGE * 7140,
        -EDGE * 7140 <= note.y <= EDGE * 7140,
{
    let (block, rest) = split_frontmatter(&chars_of(text));
    let (title, body) = split_title_and_body(&rest);
    let x: i128 = match lookup(&block, "x") {
        Some(v) => match parse_coordinate(&v) {
            Some(g) => g,
            None => 0,
        },
        None => 0,
    };
    let y: i128 = match lookup(&block, "y") {
        Some(v) => match parse_coordinate(&v) {
            Some(g) => g,
            None => 0,
        },
        None => 0,
    };
    let z: u32 = match lookup(&block, "z") {
        Some(v) => match parse_count(&v) {
            Some(n) => n,
            None => 0,
        },
        None => 0,
    };
    let color = match lookup(&block, "color") {
        Some(v) => match Color::parse(&v) {
            Ok(c) => c,
            Err(_) => Color::Yellow,
        },
        None => Color::Yellow,
    };
    Note { id, title, body, x, y, z, color }
}

// ---- laws ----

proof fn lemma_find_first(hay: Seq<char>, needle: Seq<char>, from: int, at: int)
    requires
        0 <= from <= at,
        occurs_at(needle, hay, at),
        forall|i: int| from <= i < at ==> !#[trigger] occurs_at(needle, hay, i),
    ensures
        find(hay, needle, from) == Some(at),
    decreases at - from,
{
    if from < at {
        assert(!occurs_at(needle, hay, from));
        lemma_find_first(hay, needle, from + 1, at);
    }
}

/// Trimming leaves alone what neither starts nor ends in white space, and takes
/// a space off its front.
pub proof fn lemma_trim_word(w: Seq<char>)
    requires
        w.len() > 0,
        !is_white(w[0]),
        !is_white(w.last()),
    ensures
        trim(w) == w,
        trim(seq![' '] + w) == w,
{
    let s = seq![' '] + w;
    assert(s.drop_first() =~= w);
    assert(crate::text::trim_start(s) == crate::text::trim_start(w));
}

/// A number's characters are digits, but for a minus sign in front.
proof fn lemma_signed_chars(n: int)
    ensures
        signed_decimal(n).len() > 0,
        forall|i: int|
            0 <= i < signed_decimal(n).len() ==> {
                let c = #[trigger] signed_decimal(n)[i];
                crate::text::is_digit(c) || c == '-'
            },
{
    let m: nat = if n < 0 {
        (-n) as nat
    } else {
        n as nat
    };
    crate::text::law_decimal_round_trips(m);
    let d = decimal(m);
    assert forall|i: int| 0 <= i < signed_decimal(n).len() implies {
        let c = #[trigger] signed_decimal(n)[i];
        crate::text::is_digit(c) || c == '-'
    } by {
        if n < 0 {
            if i > 0 {
                assert(signed_decimal(n)[i] == d[i - 1]);
                assert(crate::text::is_digit(d[i - 1]));
            }
        } else {
            assert(crate::text::is_digit(d[i]));
        }
    }
}

/// A color's name is made of small letters.
proof fn lemma_name_chars(c: Color)
    ensures
        c.name().len() > 0,
        forall|i: int| 0 <= i < c.name().len() ==> 'a' <= (#[trigger] c.name()[i]) <= 'z',
{
    reveal_strlit("yellow");
    reveal_strlit("green");
    reveal_strlit("blue");
    reveal_strlit("pink");
    reveal_strlit("peach");
    reveal_strlit("mauve");
    reveal_strlit("teal");
    reveal_strlit("red");
}

/// What one line of the header says.
proof fn lemma_line_says(key: Seq<char>, value: Seq<char>, other: Seq<char>)
    requires
        key.len() > 0,
        forall|i: int| 0 <= i < key.len() ==> 'a' <= (#[trigger] key[i]) <= 'z',
        value.len() > 0,
        forall|i: int|
            0 <= i < value.len() ==> {
                let c = #[trigger] value[i];
                crate::text::is_digit(c) || c == '-' || 'a' <= c <= 'z'
            },
        other != key,
    ensures
        value_in(key + seq![':', ' '] + value, key) == Some(value),
        value_in(key + seq![':', ' '] + value, other) is None,
{
    assert(!is_white(value[0]) && !is_white(value[value.len() - 1]));
    lemma_key_and_value(key, value, other);
}

/// A key in small letters, a colon, a space and a value with no white space
/// around it say that the key has the value.
pub proof fn lemma_key_and_value(key: Seq<char>, value: Seq<char>, other: Seq<char>)
    requires
        key.len() > 0,
        forall|i: int| 0 <= i < key.len() ==> 'a' <= (#[trigger] key[i]) <= 'z',
        value.len() > 0,
        !is_white(value[0]),
        !is_white(value.last()),
        other != key,
    ensures
        value_in(key + seq![':', ' '] + value, key) == Some(value),
        value_in(key + seq![':', ' '] + value, other) is None,
{
    let line = key + seq![':', ' '] + value;
    let k = key.len() as int;
    lemma_colon(line, 0, k);
    assert(line.take(k) =~= key);
    assert(line.skip(k + 1) =~= seq![' '] + value);
    assert(!is_white(key[0]) && !is_white(key[k - 1]));
    lemma_trim_word(key);
    lemma_trim_word(value);
}

proof fn lemma_colon(line: Seq<char>, from: int, at: int)
    requires
        0 <= from <= at < line.len(),
        line[at] == ':',
        forall|i: int| from <= i < at ==> line[i] != ':',
    ensures
        colon(line, from) == Some(at),
    decreases at - from,
{
    if from < at {
        lemma_colon(line, from + 1, at);
    }
}

/// The four lines of a header, as key and value.
proof fn lemma_header_shape(n: NoteView)
    ensures
        ({
            let h = header_lines(n);
            &&& h.len() == 4
            &&& h[0] == "x"@ + seq![':', ' '] + signed_decimal(units(n.x as int))
            &&& h[1] == "y"@ + seq![':', ' '] + signed_decimal(units(n.y as int))
            &&& h[2] == "z"@ + seq![':', ' '] + decimal(n.z as nat)
            &&& h[3] == "color"@ + seq![':', ' '] + n.color.name()
            &&& forall|i: int|
                0 <= i < 4 ==> !(#[trigger] h[i]).contains('\n') && h[i].len() > 0 && h[i].last()
                    != '\r' && h[i][0] != '-'
            &&& crate::text::split(crate::text::join(h, '\n'), '\n') == h
            &&& lines_of(crate::text::join(h, '\n')) == h
        }),
{
    let h = header_lines(n);
    reveal_strlit("x: ");
    reveal_strlit("y: ");
    reveal_strlit("z: ");
    reveal_strlit("color: ");
    reveal_strlit("x");
    reveal_strlit("y");
    reveal_strlit("z");
    reveal_strlit("color");
    let (vx, vy, vz, vc) = (
        signed_decimal(units(n.x as int)),
        signed_decimal(units(n.y as int)),
        decimal(n.z as nat),
        n.color.name(),
    );
    assert(h[0] =~= "x"@ + seq![':', ' '] + vx);
    assert(h[1] =~= "y"@ + seq![':', ' '] + vy);
    assert(h[2] =~= "z"@ + seq![':', ' '] + vz);
    assert(h[3] =~= "color"@ + seq![':', ' '] + vc);
    lemma_signed_chars(units(n.x as int));
    lemma_signed_chars(units(n.y as int));
    lemma_signed_chars(n.z as int);
    assert(vz == signed_decimal(n.z as int));
    lemma_name_chars(n.color);
    assert forall|i: int| 0 <= i < 4 implies !(#[trigger] h[i]).contains('\n') && h[i].len() > 0
        && h[i].last() != '\r' && h[i][0] != '-' by {
        lemma_plain_line(h[i], if i == 0 { vx } else if i == 1 { vy } else if i == 2 { vz } else { vc });
    }
    crate::text::lemma_split_join(h, '\n');
    let j = crate::text::join(h, '\n');
    let pieces = crate::text::split(j, '\n');
    assert(pieces == h);
    assert(lines_of(j) =~= h);
}

/// A header line holds no line break.
proof fn lemma_plain_line(line: Seq<char>, value: Seq<char>)
    requires
        value.len() > 0,
        forall|i: int|
            0 <= i < value.len() ==> {
                let c = #[trigger] value[i];
                crate::text::is_digit(c) || c == '-' || 'a' <= c <= 'z'
            },
        line == "x"@ + seq![':', ' '] + value || line == "y"@ + seq![':', ' '] + value || line
            == "z"@ + seq![':', ' '] + value || line == "color"@ + seq![':', ' '] + value,
    ensures
        !line.contains('\n'),
        line.len() > 0,
        line.last() != '\r',
        line[0] != '-',
{
    reveal_strlit("x");
    reveal_strlit("y");
    reveal_strlit("z");
    reveal_strlit("color");
    let k = line.len() - value.len();
    assert forall|i: int| 0 <= i < line.len() implies line[i] != '\n' by {
        if i >= k {
            assert(line[i] == value[i - k]);
        }
    }
    assert(line.last() == value[value.len() - 1]);
}

/// Inside the header a line break is never followed by a dash.
proof fn lemma_no_fence_inside(h: Seq<Seq<char>>)
    requires
        h.len() >= 1,
        forall|i: int|
            0 <= i < h.len() ==> !(#[trigger] h[i]).contains('\n') && h[i].len() > 0 && h[i][0]
                != '-',
    ensures
        ({
            let j = crate::text::join(h, '\n');
            &&& j.len() > 0
            &&& j[0] != '-'
            &&& forall|i: int|
                0 <= i < j.len() && #[trigger] j[i] == '\n' ==> i + 1 < j.len() && j[i + 1] != '-'
        }),
    decreases h.len(),
{
    let j = crate::text::join(h, '\n');
    if h.len() == 1 {
        assert forall|i: int| 0 <= i < j.len() implies #[trigger] j[i] != '\n' by {
            assert(h[0].contains(h[0][i]));
        }
    } else {
        let f = h.drop_last();
        assert forall|i: int| 0 <= i < f.len() implies !(#[trigger] f[i]).contains('\n')
            && f[i].len() > 0 && f[i][0] != '-' by {
            assert(f[i] == h[i]);
        }
        lemma_no_fence_inside(f);
        let jf = crate::text::join(f, '\n');
        let last = h[h.len() - 1];
        assert(j == jf.push('\n') + last);
        assert forall|i: int| 0 <= i < j.len() && #[trigger] j[i] == '\n' implies i + 1 < j.len()
            && j[i + 1] != '-' by {
            if i < jf.len() {
                assert(jf[i] == '\n');
                assert(j[i + 1] == jf[i + 1]);
            } else if i == jf.len() {
                assert(j[i + 1] == last[0]);
            } else {
                assert(last.contains(last[i - jf.len() - 1]));
            }
        }
    }
}

/// A rendered file splits into the header it was rendered with and the text
/// under it.
proof fn lemma_front_of_rendered(n: NoteView, under: Seq<char>)
    requires
        rendered(n) == "---\n"@ + crate::text::join(header_lines(n), '\n') + "\n---\n"@ + under,
    ensures
        front(rendered(n)) == (Some(crate::text::join(header_lines(n), '\n')), under),
{
    let h = header_lines(n);
    let j = crate::text::join(h, '\n');
    let text = rendered(n);
    reveal_strlit("---\n");
    reveal_strlit("\n---");
    reveal_strlit("\n---\n");
    lemma_header_shape(n);
    lemma_no_fence_inside(h);
    assert(text.subrange(0, 4) =~= "---\n"@);
    let after = text.skip(4);
    assert(after =~= j + "\n---\n"@ + under);
    assert(after.subrange(j.len() as int, j.len() as int + 4) =~= "\n---"@);
    assert forall|i: int| 0 <= i < j.len() implies !#[trigger] occurs_at("\n---"@, after, i) by {
        if occurs_at("\n---"@, after, i) {
            assert(after.subrange(i, i + 4)[0] == '\n');
            assert(after.subrange(i, i + 4)[1] == '-');
            assert(j[i] == '\n');
            assert(after[i + 1] == j[i + 1]);
        }
    }
    lemma_find_first(after, "\n---"@, 0, j.len() as int);
    assert(after.take(j.len() as int) =~= j);
    let tail = after.skip(j.len() as int + 4);
    assert(tail =~= seq!['\n'] + under);
    assert(tail.skip(1) =~= under);
}

/// The header's fields read back as they were written.
proof fn lemma_fields_of_rendered(n: NoteView)
    ensures
        ({
            let b = Some(crate::text::join(header_lines(n), '\n'));
            &&& field_of(b, "x"@) == Some(signed_decimal(units(n.x as int)))
            &&& field_of(b, "y"@) == Some(signed_decimal(units(n.y as int)))
            &&& field_of(b, "z"@) == Some(decimal(n.z as nat))
            &&& field_of(b, "color"@) == Some(n.color.name())
        }),
{
    let h = header_lines(n);
    lemma_header_shape(n);
    reveal_strlit("x");
    reveal_strlit("y");
    reveal_strlit("z");
    reveal_strlit("color");
    lemma_signed_chars(units(n.x as int));
    lemma_signed_chars(units(n.y as int));
    lemma_signed_chars(n.z as int);
    lemma_name_chars(n.color);
    let (vx, vy, vz, vc) = (
        signed_decimal(units(n.x as int)),
        signed_decimal(units(n.y as int)),
        signed_decimal(n.z as int),
        n.color.name(),
    );
    assert("x"@[0] == 'x' && "y"@[0] == 'y' && "z"@[0] == 'z' && "color"@[0] == 'c');
    lemma_line_says("x"@, vx, "y"@);
    lemma_line_says("y"@, vy, "x"@);
    lemma_line_says("z"@, vz, "x"@);
    lemma_line_says("color"@, vc, "x"@);
    lemma_line_says("z"@, vz, "y"@);
    lemma_line_says("color"@, vc, "y"@);
    lemma_line_says("color"@, vc, "z"@);
    reveal_with_fuel(field, 5);
}

/// The text under a rendered header reads back as the title and the body it was
/// rendered from.
proof fn lemma_text_of_rendered(title: Seq<char>, body: Seq<char>, under: Seq<char>)
    requires
        !title.contains('\n'),
        under == "# "@ + title + "\n"@ + if body.len() == 0 {
            Seq::empty()
        } else {
            "\n"@ + trim_end(body) + "\n"@
        },
    ensures
        title_in(under) == title,
        body_in(under) == trim_end(body),
{
    reveal_strlit("# ");
    reveal_strlit("\n");
    let first = "# "@ + title;
    let k = first.len() as int;
    assert(under[0] == '#');
    assert(past_newlines(under) == under);
    assert forall|i: int| 0 <= i < k implies under[i] != '\n' by {
        if i >= 2 {
            assert(under[i] == title[i - 2]);
            assert(title.contains(title[i - 2]));
        }
    }
    crate::laws::lemma_first_newline(under, 0, k);
    assert(under.take(k) =~= first);
    assert(first.subrange(0, 2) =~= "# "@);
    assert(first.skip(2) =~= title);
    let rest = under.skip(k + 1);
    let kept = trim_end(body);
    if body.len() == 0 {
        assert(rest =~= Seq::<char>::empty());
        assert(body =~= Seq::<char>::empty());
    } else {
        assert(rest =~= seq!['\n'] + kept + seq!['\n']);
        let inner = rest.skip(1);
        assert(inner =~= kept.push('\n'));
        assert(inner.drop_last() =~= kept);
        crate::text::lemma_trim_end(body);
        assert(trim_end(inner) == trim_end(kept));
        assert(trim_end(kept) == kept);
    }
}

/// A pin survives the trip through its file: reading back what was written gives
/// the same pin, its position rounded to whole units and nothing trailing its
/// body.
pub proof fn law_a_pin_round_trips(n: NoteView, id: u64)
    requires
        !n.title.contains('\n'),
    ensures
        parsed(rendered(n), id) == (NoteView {
            id,
            body: trim_end(n.body),
            x: (units(n.x as int) * 7140) as i128,
            y: (units(n.y as int) * 7140) as i128,
            ..n
        }),
{
    let under = "# "@ + n.title + "\n"@ + if n.body.len() == 0 {
        Seq::empty()
    } else {
        "\n"@ + trim_end(n.body) + "\n"@
    };
    assert(rendered(n) =~= "---\n"@ + crate::text::join(header_lines(n), '\n') + "\n---\n"@ + under)
        by {
        reveal_strlit("\n---\n# ");
        reveal_strlit("\n---\n");
        reveal_strlit("# ");
        assert("\n---\n# "@ =~= "\n---\n"@ + "# "@);
    }
    lemma_front_of_rendered(n, under);
    lemma_fields_of_rendered(n);
    lemma_text_of_rendered(n.title, n.body, under);
    crate::coord::law_whole_units_round_trip(units(n.x as int));
    crate::coord::law_whole_units_round_trip(units(n.y as int));
    crate::text::law_decimal_round_trips(n.z as nat);
    let d = decimal(n.z as nat);
    assert(crate::text::is_digit(d[0]));
    crate::model::law_color_round_trips(n.color, n.color.name());
}

/// What is read from a file is as its file would leave it: a title on one line
/// and a body with nothing trailing.
pub proof fn lemma_parsed_shape(text: Seq<char>, id: u64)
    ensures
        !parsed(text, id).title.contains('\n'),
        trim_end(parsed(text, id).body) == parsed(text, id).body,
{
    let n = parsed(text, id);
    let rest = front(text).1;
    crate::laws::law_a_title_is_one_line(past_newlines(rest));
    let first = crate::state::title_of(past_newlines(rest));
    if n.title.contains('\n') {
        let i = choose|i: int| 0 <= i < n.title.len() && n.title[i] == '\n';
        if occurs_at("# "@, first, 0) {
            reveal_strlit("# ");
            assert(first[i + 2] == '\n');
        }
    }
    let inner = crate::state::body_of(past_newlines(rest));
    let body = if inner.len() > 0 && inner[0] == '\n' {
        inner.skip(1)
    } else {
        inner
    };
    crate::text::lemma_trim_end(body);
}

/// Reading a file and writing it back settles at once: the second writing is
/// the first.
pub proof fn law_rendering_is_stable(text: Seq<char>, id: u64)
    ensures
        rendered(parsed(rendered(parsed(text, id)), id)) == rendered(parsed(text, id)),
{
    let n = parsed(text, id);
    lemma_parsed_shape(text, id);
    law_a_pin_round_trips(n, id);
    crate::coord::law_units_round(n.x as int);
    crate::coord::law_units_round(n.y as int);
    assert(header_lines(parsed(rendered(n), id)) =~= header_lines(n));
}

proof fn lemma_past_blanks(s: Seq<char>)
    ensures
        past_blanks(s).len() <= s.len(),
        s.skip(s.len() - past_blanks(s).len()) == past_blanks(s),
        forall|i: int| 0 <= i < s.len() - past_blanks(s).len() ==> is_white(#[trigger] s[i]),
    decreases s.len(),
{
    if s.len() > 0 && s[0] != '\n' && is_white(s[0]) {
        let t = s.skip(1);
        lemma_past_blanks(t);
        assert(s.skip(s.len() - past_blanks(s).len()) =~= t.skip(t.len() - past_blanks(t).len()));
        assert forall|i: int| 0 <= i < s.len() - past_blanks(s).len() implies is_white(
            #[trigger] s[i],
        ) by {
            if i > 0 {
                assert(t[i - 1] == s[i]);
            }
        }
    } else {
        assert(s.skip(0) =~= s);
    }
}

proof fn lemma_past_newlines(s: Seq<char>)
    ensures
        past_newlines(s).len() <= s.len(),
        s.skip(s.len() - past_newlines(s).len()) == past_newlines(s),
        forall|i: int| 0 <= i < s.len() - past_newlines(s).len() ==> is_white(#[trigger] s[i]),
    decreases s.len(),
{
    if s.len() > 0 && s[0] == '\n' {
        let t = s.skip(1);
        lemma_past_newlines(t);
        assert(s.skip(s.len() - past_newlines(s).len()) =~= t.skip(
            t.len() - past_newlines(t).len(),
        ));
        assert forall|i: int| 0 <= i < s.len() - past_newlines(s).len() implies is_white(
            #[trigger] s[i],
        ) by {
            if i > 0 {
                assert(t[i - 1] == s[i]);
            }
        }
    } else {
        assert(s.skip(0) =~= s);
    }
}

/// Nothing but white space.
pub open spec fn blank(s: Seq<char>) -> bool {
    forall|i: int| 0 <= i < s.len() ==> is_white(#[trigger] s[i])
}

/// A text made of a title and a body: white space apart, there is nothing else in
/// it than a heading mark.
pub open spec fn made_of(
    text: Seq<char>,
    title: Seq<char>,
    body: Seq<char>,
    lead: Seq<char>,
    mark: Seq<char>,
    gap: Seq<char>,
    trail: Seq<char>,
) -> bool {
    &&& text == lead + mark + title + gap + body + trail
    &&& blank(lead) && blank(gap) && blank(trail)
    &&& mark == "# "@ || mark.len() == 0
}

/// No text is lost on the way in: what a file holds is a header between fences,
/// if it has one, and under it the pin's title and body, with white space and a
/// heading mark around them and nothing else.
pub proof fn law_no_text_is_lost(text: Seq<char>, id: u64)
    ensures
        match front(text) {
            (None, rest) => rest == text,
            (Some(block), rest) => exists|blanks: Seq<char>| #[trigger]
                blank(blanks) && text == "---\n"@ + block + "\n---"@ + blanks + rest,
        },
        exists|lead: Seq<char>, mark: Seq<char>, gap: Seq<char>, trail: Seq<char>| #[trigger]
            made_of(
                front(text).1,
                parsed(text, id).title,
                parsed(text, id).body,
                lead,
                mark,
                gap,
                trail,
            ),
{
    if let (Some(block), rest) = front(text) {
        let blanks = lemma_fenced(text);
        assert(blank(blanks));
    }
    let (lead, mark, gap, trail) = lemma_made_of(front(text).1);
    assert(made_of(
        front(text).1,
        parsed(text, id).title,
        parsed(text, id).body,
        lead,
        mark,
        gap,
        trail,
    ));
}

/// What stands between a header's closing fence and the text under it.
proof fn lemma_fenced(text: Seq<char>) -> (blanks: Seq<char>)
    requires
        front(text).0 is Some,
    ensures
        blank(blanks),
        text == "---\n"@ + front(text).0->0 + "\n---"@ + blanks + front(text).1,
{
    reveal_strlit("---\n");
    reveal_strlit("\n---");
    let block = front(text).0->0;
    let rest = front(text).1;
    let after = text.skip(4);
    let end = find(after, "\n---"@, 0)->0;
    lemma_find_stands(after, "\n---"@, 0);
    let tail = after.skip(end + 4);
    lemma_past_blanks(tail);
    let blanks = tail.take(tail.len() - rest.len());
    assert(tail =~= blanks + rest);
    assert(after =~= block + "\n---"@ + tail);
    assert(text =~= "---\n"@ + after);
    assert(text =~= "---\n"@ + block + "\n---"@ + blanks + rest);
    blanks
}

proof fn lemma_apart(a: Seq<char>, b: Seq<char>, c: Seq<char>)
    ensures
        a + (b + c) == a + b + c,
{
    assert(a + (b + c) =~= a + b + c);
}

/// What stands between the first line of a text and what is under it.
proof fn lemma_gap(t: Seq<char>) -> (gap: Seq<char>)
    ensures
        blank(gap),
        t == crate::state::title_of(t) + (gap + unspaced(crate::state::body_of(t))),
{
    lemma_first_newline(t, 0);
    let first = crate::state::title_of(t);
    let inner = unspaced(crate::state::body_of(t));
    let gap = t.subrange(first.len() as int, t.len() - inner.len());
    assert(t =~= first + (gap + inner));
    gap
}

proof fn lemma_mark(first: Seq<char>) -> (mark: Seq<char>)
    ensures
        mark == "# "@ || mark.len() == 0,
        first == mark + (if occurs_at("# "@, first, 0) {
            first.skip(2)
        } else {
            first
        }),
{
    reveal_strlit("# ");
    if occurs_at("# "@, first, 0) {
        assert(first =~= "# "@ + first.skip(2));
        "# "@
    } else {
        assert(first =~= Seq::<char>::empty() + first);
        Seq::empty()
    }
}

/// What a text is made of besides its title and its body.
proof fn lemma_made_of(rest: Seq<char>) -> (parts: (Seq<char>, Seq<char>, Seq<char>, Seq<char>))
    ensures
        made_of(rest, title_in(rest), body_in(rest), parts.0, parts.1, parts.2, parts.3),
{
    lemma_past_newlines(rest);
    let t = past_newlines(rest);
    let lead = rest.take(rest.len() - t.len());
    assert(rest =~= lead + t);
    let first = crate::state::title_of(t);
    let inner = unspaced(crate::state::body_of(t));
    let (title, body) = (title_in(rest), body_in(rest));
    let gap = lemma_gap(t);
    let mark = lemma_mark(first);
    crate::text::lemma_trim_end(inner);
    let trail = inner.skip(body.len() as int);
    assert(inner =~= body + trail);
    lemma_apart(lead, mark, title);
    lemma_apart(lead, first, gap + inner);
    lemma_apart(lead + first, gap, inner);
    lemma_apart(lead + first + gap, body, trail);
    (lead, mark, gap, trail)
}

/// Where a text is found, it stands.
proof fn lemma_find_stands(hay: Seq<char>, needle: Seq<char>, from: int)
    requires
        find(hay, needle, from) is Some,
    ensures
        occurs_at(needle, hay, find(hay, needle, from)->0),
        from <= find(hay, needle, from)->0 <= hay.len(),
    decreases hay.len() - from + 1,
{
    if !occurs_at(needle, hay, from) {
        lemma_find_stands(hay, needle, from + 1);
    }
}

/// The first newline is one.
proof fn lemma_first_newline(t: Seq<char>, from: int)
    requires
        0 <= from,
    ensures
        crate::state::first_newline(t, from) matches Some(i) ==> from <= i < t.len() && t[i] == '\n',
    decreases t.len() - from,
{
    if from < t.len() && t[from] != '\n' {
        lemma_first_newline(t, from + 1);
    }
}

// ---- fields ----

/// A header line is a key, a colon and a value; white space around either is no part
/// of it. A line about one key says nothing of another.
pub proof fn law_a_header_line_gives_its_key_a_value(
    before: Seq<char>,
    value: Seq<char>,
    key: Seq<char>,
)
    requires
        !before.contains(':'),
    ensures
        trim(before) == key ==> value_in(before + seq![':'] + value, key) == Some(trim(value)),
        trim(before) != key ==> value_in(before + seq![':'] + value, key) is None,
        value_in(before, key) is None,
{
    let line = before + seq![':'] + value;
    assert forall|k: int| 0 <= k < before.len() implies #[trigger] line[k] != ':' by {
        assert(before.contains(before[k]));
    }
    lemma_colon(line, 0, before.len() as int);
    assert(line.take(before.len() as int) =~= before);
    assert(line.skip(before.len() as int + 1) =~= value);
    if let Some(i) = colon(before, 0) {
        lemma_colon_is_one(before, 0);
        assert(before.contains(before[i]));
    }
}

proof fn lemma_colon_is_one(line: Seq<char>, from: int)
    requires
        0 <= from,
    ensures
        colon(line, from) matches Some(i) ==> from <= i < line.len() && line[i] == ':',
    decreases line.len() - from,
{
    if from < line.len() && line[from] != ':' {
        lemma_colon_is_one(line, from + 1);
    }
}

/// Where several lines speak of a key the last one has the say, and where none does
/// there is no value.
pub proof fn law_the_last_line_has_the_say(lines: Seq<Seq<char>>, key: Seq<char>, n: int, at: int)
    requires
        0 <= n <= lines.len(),
        0 <= at < n,
        forall|k: int| at < k < n ==> value_in(#[trigger] lines[k], key) is None,
    ensures
        value_in(lines[at], key) is Some ==> field(lines, key, n) == value_in(lines[at], key),
        field(lines, key, 0) is None,
        at == 0 && value_in(lines[0], key) is None ==> field(lines, key, n) is None,
    decreases n,
{
    if n - 1 > at {
        law_the_last_line_has_the_say(lines, key, n - 1, at);
    } else {
        assert(n - 1 == at);
    }
}

/// A file without a header is a pin all the same: at the origin, at the bottom of the
/// stack, yellow, and all of it text.
pub proof fn law_a_bare_file_is_a_pin(text: Seq<char>, id: u64)
    requires
        front(text).0 is None,
    ensures
        ({
            let n = parsed(text, id);
            &&& n.id == id && n.x == 0 && n.y == 0 && n.z == 0
            &&& n.color == crate::model::Color::Yellow
            &&& front(text).1 == text
            &&& n.title == title_in(text) && n.body == body_in(text)
        }),
{
}

} // verus!

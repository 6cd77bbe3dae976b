//! The domain: what a bulletin board is made of. No rendering, no I/O.

use crate::geometry::{floor_div, WorldPoint, GRAIN};
use crate::text::same_str;
use vstd::prelude::*;

verus! {

/// Fixed world-space size of every post-it, in grains: 200 by 150 world units.
/// Notes are uniform on purpose - it keeps layout, hit-testing, and stacking
/// simple. Zoom changes how big a note *looks*, never its world size.
pub const NOTE_W: i128 = 200 * GRAIN;

pub const NOTE_H: i128 = 150 * GRAIN;

/// Minimum world-space gap between two pins' top-left corners, and the step a
/// blocked placement cascades by.
///
/// Two pins closer than this on *both* axes are one pin as far as the eye is
/// concerned, and pin files store x and y rounded to whole units, so a near
/// miss becomes an exact overlap on the next reload and the pin underneath is
/// lost for good. One eighth of a note keeps the cascade parallel to the
/// note's diagonal, so an offset pin's border and the start of its title stay
/// visible at every zoom you can read text at.
pub const CASCADE_X: i128 = 178_500;

pub const CASCADE_Y: i128 = 133_875;

/// A note's background. A closed enum, so a renderer maps it to whatever its
/// medium needs (a hex string, an ANSI color).
#[derive(Debug, Clone, Copy, PartialEq, Eq, Structural)]
pub enum Color {
    Yellow,
    Green,
    Blue,
    Pink,
    Peach,
    Mauve,
    Teal,
    Red,
}

impl Color {
    pub const ALL: [Color; 8] = [
        Color::Yellow,
        Color::Green,
        Color::Blue,
        Color::Pink,
        Color::Peach,
        Color::Mauve,
        Color::Teal,
        Color::Red,
    ];

    /// The name of a color.
    pub open spec fn name(self) -> Seq<char> {
        match self {
            Color::Yellow => "yellow"@,
            Color::Green => "green"@,
            Color::Blue => "blue"@,
            Color::Pink => "pink"@,
            Color::Peach => "peach"@,
            Color::Mauve => "mauve"@,
            Color::Teal => "teal"@,
            Color::Red => "red"@,
        }
    }

    /// The color with a name, if there is one.
    pub open spec fn named(s: Seq<char>) -> Option<Color> {
        if s == "yellow"@ {
            Some(Color::Yellow)
        } else if s == "green"@ {
            Some(Color::Green)
        } else if s == "blue"@ {
            Some(Color::Blue)
        } else if s == "pink"@ {
            Some(Color::Pink)
        } else if s == "peach"@ {
            Some(Color::Peach)
        } else if s == "mauve"@ {
            Some(Color::Mauve)
        } else if s == "teal"@ {
            Some(Color::Teal)
        } else if s == "red"@ {
            Some(Color::Red)
        } else {
            None
        }
    }

    /// Position in the palette.
    pub open spec fn rank(self) -> int {
        match self {
            Color::Yellow => 0,
            Color::Green => 1,
            Color::Blue => 2,
            Color::Pink => 3,
            Color::Peach => 4,
            Color::Mauve => 5,
            Color::Teal => 6,
            Color::Red => 7,
        }
    }

    /// The next color of the palette, or the one before; the ends meet.
    #[verifier::opaque]
    pub open spec fn stepped(self, forward: bool) -> Color {
        Color::ALL@[if forward {
            (self.rank() + 1) % 8
        } else {
            (self.rank() + 7) % 8
        }]
    }

    /// Stable lowercase name, used in a pin file's frontmatter.
    pub fn as_str(self) -> (s: &'static str)
        ensures
            s@ == self.name(),
    {
        match self {
            Color::Yellow => "yellow",
            Color::Green => "green",
            Color::Blue => "blue",
            Color::Pink => "pink",
            Color::Peach => "peach",
            Color::Mauve => "mauve",
            Color::Teal => "teal",
            Color::Red => "red",
        }
    }

    /// The inverse of [`Color::as_str`], so a color survives a round trip
    /// through a pin file's frontmatter.
    pub fn parse(s: &str) -> (c: Result<Color, ParseColorError>)
        ensures
            match c {
                Ok(c) => Color::named(s@) == Some(c),
                Err(_) => Color::named(s@) is None,
            },
    {
        if same_str(s, "yellow") {
            Ok(Color::Yellow)
        } else if same_str(s, "green") {
            Ok(Color::Green)
        } else if same_str(s, "blue") {
            Ok(Color::Blue)
        } else if same_str(s, "pink") {
            Ok(Color::Pink)
        } else if same_str(s, "peach") {
            Ok(Color::Peach)
        } else if same_str(s, "mauve") {
            Ok(Color::Mauve)
        } else if same_str(s, "teal") {
            Ok(Color::Teal)
        } else if same_str(s, "red") {
            Ok(Color::Red)
        } else {
            Err(ParseColorError)
        }
    }

    /// Position in `ALL`.
    pub fn index(self) -> (i: usize)
        ensures
            i == self.rank(),
            i < 8,
            Color::ALL@[i as int] == self,
    {
        match self {
            Color::Yellow => 0,
            Color::Green => 1,
            Color::Blue => 2,
            Color::Pink => 3,
            Color::Peach => 4,
            Color::Mauve => 5,
            Color::Teal => 6,
            Color::Red => 7,
        }
    }

    /// One step through the palette.
    pub fn step(self, forward: bool) -> (c: Color)
        ensures
            c == self.stepped(forward),
    {
        reveal(Color::stepped);
        let cur: usize = self.index();
        if forward {
            Color::ALL[(cur + 1) % 8]
        } else {
            Color::ALL[(cur + 7) % 8]
        }
    }
}

/// Returned when a string doesn't name one of the eight note colors.
#[derive(Debug, Clone, Copy, PartialEq, Eq, Structural)]
pub struct ParseColorError;

impl ParseColorError {
    /// What to tell the user.
    pub fn message(self) -> (s: &'static str)
        ensures
            s@ == "not a note color"@,
    {
        "not a note color"
    }
}

impl std::str::FromStr for Color {
    type Err = ParseColorError;

    fn from_str(s: &str) -> (c: std::result::Result<Color, ParseColorError>)
        ensures
            match c {
                Ok(c) => Color::named(s@) == Some(c),
                Err(_) => Color::named(s@) is None,
            },
    {
        Color::parse(s)
    }
}

/// A single post-it: a title and a body, plus the spatial metadata that living
/// on a board adds - position, stack order, color.
#[derive(Debug, PartialEq, Eq)]
pub struct Note {
    pub id: u64,
    pub title: String,
    pub body: String,
    /// Top-left corner in world space.
    pub x: i128,
    pub y: i128,
    /// Stack order; higher sits on top. Dragging a note to the front raises it.
    pub z: u32,
    pub color: Color,
}

/// A note as a value: see [`Note`].
#[verifier::ext_equal]
pub struct NoteView {
    pub id: u64,
    pub title: Seq<char>,
    pub body: Seq<char>,
    pub x: i128,
    pub y: i128,
    pub z: u32,
    pub color: Color,
}

impl View for Note {
    type V = NoteView;

    open spec fn view(&self) -> NoteView {
        NoteView {
            id: self.id,
            title: self.title@,
            body: self.body@,
            x: self.x,
            y: self.y,
            z: self.z,
            color: self.color,
        }
    }
}

impl NoteView {
    pub open spec fn position(self) -> WorldPoint {
        WorldPoint { x: self.x, y: self.y }
    }

    /// Whether a point lands on the note: left and top edges inclusive, right
    /// and bottom exclusive.
    pub open spec fn contains(self, p: WorldPoint) -> bool {
        self.x <= p.x < self.x + NOTE_W && self.y <= p.y < self.y + NOTE_H
    }

    /// Whether the note's far corner is still a coordinate.
    pub open spec fn fits(self) -> bool {
        self.x + NOTE_W <= i128::MAX && self.y + NOTE_H <= i128::MAX
    }

    /// Whether a pin at `spot` would hide this one, or be hidden by it.
    pub open spec fn crowds(self, spot: WorldPoint) -> bool {
        -CASCADE_X < self.x - spot.x < CASCADE_X && -CASCADE_Y < self.y - spot.y < CASCADE_Y
    }
}

impl Clone for Note {
    fn clone(&self) -> (out: Self)
        ensures
            out@ == self@,
    {
        Note {
            id: self.id,
            title: self.title.clone(),
            body: self.body.clone(),
            x: self.x,
            y: self.y,
            z: self.z,
            color: self.color,
        }
    }
}

/// Whether `b` is less than `by` past `a`, or not past it at all.
fn short_of(a: i128, b: i128, by: i128) -> (r: bool)
    requires
        0 <= by <= NOTE_W,
    ensures
        r == (b - a < by),
{
    b < i128::MIN + by || b - by < a
}

/// The middle of two coordinates, rounded down.
fn midway(a: i128, b: i128) -> (m: i128)
    ensures
        m == (a + b) / 2,
{
    let (p, q) = (floor_div(a, 2), floor_div(b, 2));
    if a - 2 * p + (b - 2 * q) == 2 {
        p + q + 1
    } else {
        p + q
    }
}

impl Note {
    /// Top-left corner as a point.
    pub fn position(&self) -> (p: WorldPoint)
        ensures
            p == self@.position(),
    {
        WorldPoint { x: self.x, y: self.y }
    }

    /// Center point, handy for "zoom in and focus this note".
    pub fn center(&self) -> (p: WorldPoint)
        requires
            self@.fits(),
        ensures
            p.x == self.x + NOTE_W / 2,
            p.y == self.y + NOTE_H / 2,
    {
        WorldPoint { x: self.x + NOTE_W / 2, y: self.y + NOTE_H / 2 }
    }

    /// Whether `p` (world space) lands on this note. The basis of hit-testing
    /// once a click has been un-projected to world coordinates. Left/top edges
    /// are inclusive, right/bottom exclusive.
    pub fn contains(&self, p: WorldPoint) -> (r: bool)
        ensures
            r == self@.contains(p),
    {
        self.x <= p.x && short_of(self.x, p.x, NOTE_W) && self.y <= p.y && short_of(
            self.y,
            p.y,
            NOTE_H,
        )
    }

    /// Whether two notes are the same in every field.
    pub fn same(&self, other: &Note) -> (r: bool)
        ensures
            r == (self@ == other@),
    {
        self.id == other.id && same_str(&self.title, &other.title) && same_str(
            &self.body,
            &other.body,
        ) && self.x == other.x && self.y == other.y && self.z == other.z && self.color
            == other.color
    }
}

/// A list of notes as a list of values.
pub open spec fn notes_view(notes: Seq<Note>) -> Seq<NoteView> {
    Seq::new(notes.len(), |i: int| notes[i]@)
}

/// The topmost of the first `n` notes under a point: the highest in the stack,
/// the later of two at the same height.
pub open spec fn top_at(notes: Seq<NoteView>, p: WorldPoint, n: int) -> Option<int>
    decreases n,
{
    if n <= 0 {
        None
    } else {
        let best = top_at(notes, p, n - 1);
        if notes[n - 1].contains(p) && (best is None || notes[best->0].z <= notes[n - 1].z) {
            Some(n - 1)
        } else {
            best
        }
    }
}

pub open spec fn int_min(a: int, b: int) -> int {
    if b < a {
        b
    } else {
        a
    }
}

pub open spec fn int_max(a: int, b: int) -> int {
    if b > a {
        b
    } else {
        a
    }
}

/// The leftmost left edge.
pub open spec fn min_x(notes: Seq<NoteView>) -> int
    decreases notes.len(),
{
    if notes.len() <= 1 {
        notes[0].x as int
    } else {
        int_min(min_x(notes.drop_last()), notes.last().x as int)
    }
}

/// The topmost top edge.
pub open spec fn min_y(notes: Seq<NoteView>) -> int
    decreases notes.len(),
{
    if notes.len() <= 1 {
        notes[0].y as int
    } else {
        int_min(min_y(notes.drop_last()), notes.last().y as int)
    }
}

/// The rightmost right edge.
pub open spec fn max_x(notes: Seq<NoteView>) -> int
    decreases notes.len(),
{
    if notes.len() <= 1 {
        notes[0].x + NOTE_W
    } else {
        int_max(max_x(notes.drop_last()), notes.last().x + NOTE_W)
    }
}

/// The bottommost bottom edge.
pub open spec fn max_y(notes: Seq<NoteView>) -> int
    decreases notes.len(),
{
    if notes.len() <= 1 {
        notes[0].y + NOTE_H
    } else {
        int_max(max_y(notes.drop_last()), notes.last().y + NOTE_H)
    }
}

/// The `k`th place a pin that wants to sit at `wanted` is tried at.
pub open spec fn cascade(wanted: WorldPoint, k: int) -> WorldPoint {
    WorldPoint { x: (wanted.x + k * CASCADE_X) as i128, y: (wanted.y + k * CASCADE_Y) as i128 }
}

/// Whether some note, other than the excluded one, crowds a place.
pub open spec fn taken(notes: Seq<NoteView>, spot: WorldPoint, exclude: Option<u64>) -> bool {
    exists|i: int|
        0 <= i < notes.len() && Some((#[trigger] notes[i]).id) != exclude && notes[i].crowds(spot)
}

/// `spot` is the first place along the cascade that is free.
pub open spec fn is_free_spot(
    notes: Seq<NoteView>,
    wanted: WorldPoint,
    exclude: Option<u64>,
    spot: WorldPoint,
    k: int,
) -> bool {
    &&& 0 <= k <= 2 * notes.len()
    &&& spot == cascade(wanted, k)
    &&& !taken(notes, spot, exclude)
    &&& forall|j: int| 0 <= j < k ==> taken(notes, #[trigger] cascade(wanted, j), exclude)
}

/// The first free place along the cascade from `wanted`.
pub open spec fn free_spot(
    notes: Seq<NoteView>,
    wanted: WorldPoint,
    exclude: Option<u64>,
) -> WorldPoint {
    cascade(wanted, free_step(notes, wanted, exclude, 0))
}

/// The first step from `k` on at which the cascade is free, or the last step
/// there is a need to try.
pub open spec fn free_step(
    notes: Seq<NoteView>,
    wanted: WorldPoint,
    exclude: Option<u64>,
    k: int,
) -> int
    decreases 2 * notes.len() - k,
{
    if k >= 2 * notes.len() || !taken(notes, cascade(wanted, k), exclude) {
        k
    } else {
        free_step(notes, wanted, exclude, k + 1)
    }
}

/// Every place the cascade can reach is a coordinate.
pub open spec fn cascade_fits(notes: Seq<NoteView>, wanted: WorldPoint) -> bool {
    &&& wanted.x + (2 * notes.len() + 1) * CASCADE_X <= i128::MAX
    &&& wanted.y + (2 * notes.len() + 1) * CASCADE_Y <= i128::MAX
}

/// The steps of the cascade, out of the first `m`, that the first `n` notes block.
spec fn blocked(notes: Seq<NoteView>, wanted: WorldPoint, n: int, m: int) -> Set<int> {
    Set::new(
        |k: int|
            0 <= k < m && exists|i: int|
                0 <= i < n && (#[trigger] notes[i]).crowds(cascade(wanted, k)),
    )
}

/// A note blocks at most two steps of the cascade, so `n` notes block at most
/// `2 * n`.
proof fn lemma_blocked_len(notes: Seq<NoteView>, wanted: WorldPoint, n: int, m: int)
    requires
        0 <= n <= notes.len(),
        0 <= m <= 2 * notes.len() + 1,
        cascade_fits(notes, wanted),
    ensures
        blocked(notes, wanted, n, m).finite(),
        blocked(notes, wanted, n, m).len() <= 2 * n,
    decreases n,
{
    let now = blocked(notes, wanted, n, m);
    if n == 0 {
        assert(now =~= Set::<int>::empty());
    } else {
        lemma_blocked_len(notes, wanted, n - 1, m);
        let before = blocked(notes, wanted, n - 1, m);
        let q = (notes[n - 1].x - wanted.x) / CASCADE_X as int;
        let more = before.insert(q).insert(q + 1);
        assert forall|k: int| now.contains(k) implies more.contains(k) by {
            if !before.contains(k) {
                assert(notes[n - 1].crowds(cascade(wanted, k)));
                assert(k * CASCADE_X <= (2 * notes.len() + 1) * CASCADE_X);
                assert(k * CASCADE_Y <= (2 * notes.len() + 1) * CASCADE_Y);
                let d = notes[n - 1].x - wanted.x;
                assert(-CASCADE_X < d - k * CASCADE_X < CASCADE_X);
                assert(k == q || k == q + 1);
            }
        }
        assert(now.subset_of(more));
        vstd::set_lib::lemma_len_subset(now, more);
    }
}

/// Along the cascade there is always a free place within two steps per note.
proof fn lemma_some_step_is_free(notes: Seq<NoteView>, wanted: WorldPoint, exclude: Option<u64>)
    requires
        cascade_fits(notes, wanted),
    ensures
        exists|k: int|
            0 <= k <= 2 * notes.len() && !taken(notes, #[trigger] cascade(wanted, k), exclude),
{
    let m = 2 * notes.len() + 1;
    if forall|k: int| 0 <= k < m ==> taken(notes, #[trigger] cascade(wanted, k), exclude) {
        let all = vstd::set_lib::set_int_range(0, m as int);
        vstd::set_lib::lemma_int_range(0, m as int);
        let b = blocked(notes, wanted, notes.len() as int, m as int);
        lemma_blocked_len(notes, wanted, notes.len() as int, m as int);
        assert forall|k: int| all.contains(k) implies b.contains(k) by {
            assert(taken(notes, cascade(wanted, k), exclude));
        }
        vstd::set_lib::lemma_len_subset(all, b);
        assert(false);
    }
}

/// The recursive search and the description of what it finds agree.
pub proof fn lemma_free_step(
    notes: Seq<NoteView>,
    wanted: WorldPoint,
    exclude: Option<u64>,
    k: int,
    from: int,
)
    requires
        is_free_spot(notes, wanted, exclude, cascade(wanted, k), k),
        0 <= from <= k,
    ensures
        free_step(notes, wanted, exclude, from) == k,
    decreases k - from,
{
    if from < k {
        assert(taken(notes, cascade(wanted, from), exclude));
        lemma_free_step(notes, wanted, exclude, k, from + 1);
    }
}

/// The place found is the first free one on the cascade: nothing on the board,
/// other than the excluded pin, is close enough to it to hide it or be hidden.
/// However many pins there are and wherever they sit, there is such a place
/// within two steps per pin.
pub proof fn law_free_spot_is_free(notes: Seq<NoteView>, wanted: WorldPoint, exclude: Option<u64>)
    requires
        cascade_fits(notes, wanted),
    ensures
        !taken(notes, free_spot(notes, wanted, exclude), exclude),
        is_free_spot(
            notes,
            wanted,
            exclude,
            free_spot(notes, wanted, exclude),
            free_step(notes, wanted, exclude, 0),
        ),
        !taken(notes, wanted, exclude) ==> free_spot(notes, wanted, exclude) == wanted,
{
    lemma_some_step_is_free(notes, wanted, exclude);
    let k = choose|k: int|
        0 <= k <= 2 * notes.len() && !taken(notes, #[trigger] cascade(wanted, k), exclude);
    lemma_free_step_stops(notes, wanted, exclude, 0, k);
    assert(cascade(wanted, 0) == wanted);
}

proof fn lemma_free_step_stops(
    notes: Seq<NoteView>,
    wanted: WorldPoint,
    exclude: Option<u64>,
    from: int,
    k: int,
)
    requires
        0 <= from <= k <= 2 * notes.len(),
        !taken(notes, cascade(wanted, k), exclude),
    ensures
        ({
            let s = free_step(notes, wanted, exclude, from);
            &&& from <= s <= k
            &&& !taken(notes, cascade(wanted, s), exclude)
            &&& forall|j: int| from <= j < s ==> taken(notes, #[trigger] cascade(wanted, j), exclude)
        }),
    decreases k - from,
{
    if from < k && taken(notes, cascade(wanted, from), exclude) {
        lemma_free_step_stops(notes, wanted, exclude, from + 1, k);
    }
}

/// A named board - the "world" you switch between in the header tabs.
#[derive(Debug, PartialEq, Eq)]
pub struct Board {
    pub name: String,
    pub notes: Vec<Note>,
}

/// A board as a value: see [`Board`].
#[verifier::ext_equal]
pub struct BoardView {
    pub name: Seq<char>,
    pub notes: Seq<NoteView>,
}

impl View for Board {
    type V = BoardView;

    open spec fn view(&self) -> BoardView {
        BoardView { name: self.name@, notes: notes_view(self.notes@) }
    }
}

/// A list of boards as a list of values.
pub open spec fn boards_view(boards: Seq<Board>) -> Seq<BoardView> {
    Seq::new(boards.len(), |i: int| boards[i]@)
}

impl BoardView {
    /// Bounding box of every pin, top-left first; `None` when there are no pins.
    pub open spec fn bounds(self) -> Option<((int, int), (int, int))> {
        if self.notes.len() == 0 {
            None
        } else {
            Some(((min_x(self.notes), min_y(self.notes)), (max_x(self.notes), max_y(self.notes))))
        }
    }

    /// The middle of the bounding box, rounded down to the grain; the origin
    /// when there are no pins.
    pub open spec fn content_center(self) -> (int, int) {
        match self.bounds() {
            Some((min, max)) => ((min.0 + max.0) / 2, (min.1 + max.1) / 2),
            None => (0, 0),
        }
    }

    /// Every pin's far corner is a coordinate.
    pub open spec fn fits(self) -> bool {
        forall|i: int| 0 <= i < self.notes.len() ==> (#[trigger] self.notes[i]).fits()
    }
}

impl Clone for Board {
    fn clone(&self) -> (out: Self)
        ensures
            out@ == self@,
    {
        let mut notes: Vec<Note> = Vec::new();
        let mut i: usize = 0;
        while i < self.notes.len()
            invariant
                i <= self.notes@.len(),
                notes@.len() == i,
                notes_view(notes@) =~= notes_view(self.notes@).take(i as int),
            decreases self.notes@.len() - i,
        {
            notes.push(self.notes[i].clone());
            i += 1;
        }
        Board { name: self.name.clone(), notes }
    }
}

/// A copy of a list of boards.
pub fn copy_boards(boards: &[Board]) -> (out: Vec<Board>)
    ensures
        boards_view(out@) == boards_view(boards@),
{
    let mut out: Vec<Board> = Vec::new();
    let mut i: usize = 0;
    while i < boards.len()
        invariant
            i <= boards@.len(),
            out@.len() == i,
            boards_view(out@) =~= boards_view(boards@).take(i as int),
        decreases boards@.len() - i,
    {
        out.push(boards[i].clone());
        i += 1;
    }
    out
}

/// Whether two lists of boards are the same, down to every field of every pin.
pub fn same_boards(a: &[Board], b: &[Board]) -> (r: bool)
    ensures
        r == (boards_view(a@) == boards_view(b@)),
{
    let ghost va = boards_view(a@);
    let ghost vb = boards_view(b@);
    if a.len() != b.len() {
        assert(va.len() != vb.len());
        return false;
    }
    let mut i: usize = 0;
    while i < a.len()
        invariant
            va == boards_view(a@),
            vb == boards_view(b@),
            a@.len() == b@.len(),
            i <= a@.len(),
            forall|k: int| 0 <= k < i ==> (#[trigger] va[k]) == vb[k],
        decreases a@.len() - i,
    {
        if !a[i].same(&b[i]) {
            assert(va[i as int] != vb[i as int]);
            return false;
        }
        assert(va[i as int] == vb[i as int]);
        i += 1;
    }
    proof {
        assert(va =~= vb);
    }
    true
}

impl Board {
    pub fn new(name: &str) -> (b: Self)
        ensures
            b@.name == name@,
            b@.notes == Seq::<NoteView>::empty(),
    {
        let b = Board { name: name.to_owned(), notes: Vec::new() };
        proof {
            assert(b@.notes =~= Seq::<NoteView>::empty());
        }
        b
    }

    /// Whether two boards are the same, down to every field of every pin.
    pub fn same(&self, other: &Board) -> (r: bool)
        ensures
            r == (self@ == other@),
    {
        let ghost va = notes_view(self.notes@);
        let ghost vb = notes_view(other.notes@);
        if !same_str(&self.name, &other.name) {
            return false;
        }
        if self.notes.len() != other.notes.len() {
            assert(va.len() != vb.len());
            return false;
        }
        let mut i: usize = 0;
        while i < self.notes.len()
            invariant
                va == notes_view(self.notes@),
                vb == notes_view(other.notes@),
                self.notes@.len() == other.notes@.len(),
                i <= self.notes@.len(),
                forall|k: int| 0 <= k < i ==> (#[trigger] va[k]) == vb[k],
            decreases self.notes@.len() - i,
        {
            if !self.notes[i].same(&other.notes[i]) {
                assert(va[i as int] != vb[i as int]);
                return false;
            }
            assert(va[i as int] == vb[i as int]);
            i += 1;
        }
        proof {
            assert(va =~= vb);
        }
        true
    }

    /// Where in the list the topmost note under a point is.
    pub fn index_at(&self, p: WorldPoint) -> (out: Option<usize>)
        ensures
            match out {
                Some(i) => i < self.notes@.len() && top_at(
                    self@.notes,
                    p,
                    self@.notes.len() as int,
                ) == Some(i as int),
                None => top_at(self@.notes, p, self@.notes.len() as int) is None,
            },
    {
        let ghost notes = self@.notes;
        let mut best: Option<usize> = None;
        let mut i: usize = 0;
        while i < self.notes.len()
            invariant
                i <= self.notes@.len(),
                notes == notes_view(self.notes@),
                match best {
                    Some(k) => k < i && top_at(notes, p, i as int) == Some(k as int),
                    None => top_at(notes, p, i as int) is None,
                },
            decreases self.notes@.len() - i,
        {
            assert(notes[i as int] == self.notes@[i as int]@);
            if self.notes[i].contains(p) {
                match best {
                    Some(k) => {
                        assert(notes[k as int] == self.notes@[k as int]@);
                        if self.notes[k].z <= self.notes[i].z {
                            best = Some(i);
                        }
                    },
                    None => {
                        best = Some(i);
                    },
                }
            }
            i += 1;
        }
        best
    }

    /// The topmost note under a world-space point, respecting stack order.
    /// This is what a click resolves to.
    pub fn note_at(&self, p: WorldPoint) -> (out: Option<&Note>)
        ensures
            match top_at(self@.notes, p, self@.notes.len() as int) {
                Some(i) => out == Some(&self.notes@[i]),
                None => out is None,
            },
    {
        match self.index_at(p) {
            Some(i) => Some(&self.notes[i]),
            None => None,
        }
    }

    /// Bounding box of every pin on the board (top-left min, bottom-right
    /// max), or `None` when the board is empty.
    pub fn bounds(&self) -> (out: Option<(WorldPoint, WorldPoint)>)
        requires
            self@.fits(),
        ensures
            match self@.bounds() {
                Some((min, max)) => out matches Some((lo, hi)) && (lo.x as int, lo.y as int) == min
                    && (hi.x as int, hi.y as int) == max,
                None => out is None,
            },
    {
        if self.notes.len() == 0 {
            return None;
        }
        let ghost notes = self@.notes;
        let first = &self.notes[0];
        assert(notes[0] == first@);
        assert(notes[0].fits());
        let mut min = WorldPoint { x: first.x, y: first.y };
        let mut max = WorldPoint { x: first.x + NOTE_W, y: first.y + NOTE_H };
        let mut i: usize = 1;
        while i < self.notes.len()
            invariant
                1 <= i <= self.notes@.len(),
                notes == notes_view(self.notes@),
                self@.fits(),
                min.x == min_x(notes.take(i as int)),
                min.y == min_y(notes.take(i as int)),
                max.x == max_x(notes.take(i as int)),
                max.y == max_y(notes.take(i as int)),
            decreases self.notes@.len() - i,
        {
            let n = &self.notes[i];
            proof {
                assert(notes[i as int] == n@);
                assert(self@.notes[i as int].fits());
                assert(notes.take(i + 1).drop_last() =~= notes.take(i as int));
            }
            if n.x < min.x {
                min.x = n.x;
            }
            if n.y < min.y {
                min.y = n.y;
            }
            if n.x + NOTE_W > max.x {
                max.x = n.x + NOTE_W;
            }
            if n.y + NOTE_H > max.y {
                max.y = n.y + NOTE_H;
            }
            i += 1;
        }
        proof {
            assert(notes.take(notes.len() as int) =~= notes);
        }
        Some((min, max))
    }

    /// The middle of the board's content: the point a camera arriving here
    /// frames. An empty board has nothing to frame, so it looks at the origin.
    pub fn content_center(&self) -> (p: WorldPoint)
        requires
            self@.fits(),
        ensures
            (p.x as int, p.y as int) == self@.content_center(),
    {
        match self.bounds() {
            Some((min, max)) => WorldPoint {
                x: midway(min.x, max.x),
                y: midway(min.y, max.y),
            },
            None => WorldPoint { x: 0, y: 0 },
        }
    }

    /// Whether some note, other than the excluded one, crowds a place.
    fn is_taken(&self, spot: WorldPoint, exclude: Option<u64>) -> (r: bool)
        ensures
            r == taken(self@.notes, spot, exclude),
    {
        let ghost notes = self@.notes;
        let mut i: usize = 0;
        while i < self.notes.len()
            invariant
                i <= self.notes@.len(),
                notes == notes_view(self.notes@),
                forall|k: int|
                    0 <= k < i ==> !(Some((#[trigger] notes[k]).id) != exclude && notes[k].crowds(
                        spot,
                    )),
            decreases self.notes@.len() - i,
        {
            let n = &self.notes[i];
            assert(notes[i as int] == n@);
            let excluded = match exclude {
                Some(id) => id == n.id,
                None => false,
            };
            if !excluded && short_of(n.x, spot.x, CASCADE_X) && short_of(spot.x, n.x, CASCADE_X)
                && short_of(n.y, spot.y, CASCADE_Y) && short_of(spot.y, n.y, CASCADE_Y) {
                return true;
            }
            i += 1;
        }
        false
    }

    /// A free spot for a pin that wants to sit at `wanted`, cascading
    /// down-right past anything already close enough to hide it. `exclude` is
    /// the pin being placed, so a pin dropped back where it already was does
    /// not run away from itself.
    ///
    /// This terminates: successive candidates sit exactly one gap apart, so a
    /// single pin can block at most two of them, and the board has finitely
    /// many pins. The loop bound is that argument written down, not a guess.
    pub fn free_spot(&self, wanted: WorldPoint, exclude: Option<u64>) -> (spot: WorldPoint)
        requires
            cascade_fits(self@.notes, wanted),
        ensures
            spot == free_spot(self@.notes, wanted, exclude),
            !taken(self@.notes, spot, exclude),
    {
        let ghost notes = self@.notes;
        let mut spot = wanted;
        let ghost mut k: int = 0;
        proof {
            law_free_spot_is_free(notes, wanted, exclude);
        }
        while self.is_taken(spot, exclude)
            invariant
                notes == self@.notes,
                cascade_fits(notes, wanted),
                is_free_spot(
                    notes,
                    wanted,
                    exclude,
                    free_spot(notes, wanted, exclude),
                    free_step(notes, wanted, exclude, 0),
                ),
                0 <= k <= free_step(notes, wanted, exclude, 0) <= 2 * notes.len(),
                spot.x == wanted.x + k * CASCADE_X,
                spot.y == wanted.y + k * CASCADE_Y,
            decreases free_step(notes, wanted, exclude, 0) - k,
        {
            proof {
                assert(cascade(wanted, k) == spot);
            }
            spot = WorldPoint { x: spot.x + CASCADE_X, y: spot.y + CASCADE_Y };
            proof {
                k = k + 1;
            }
        }
        proof {
            assert(cascade(wanted, k) == spot);
        }
        spot
    }
}

// ---- laws ----

/// A color's name names that color, and nothing else names any color.
pub proof fn law_color_round_trips(c: Color, s: Seq<char>)
    ensures
        Color::named(c.name()) == Some(c),
        Color::named(s) matches Some(d) ==> d.name() == s,
{
    reveal_strlit("yellow");
    reveal_strlit("green");
    reveal_strlit("blue");
    reveal_strlit("pink");
    reveal_strlit("peach");
    reveal_strlit("mauve");
    reveal_strlit("teal");
    reveal_strlit("red");
    assert("pink"@[0] == 'p' && "blue"@[0] == 'b' && "teal"@[0] == 't');
    assert("green"@[0] == 'g' && "peach"@[0] == 'p' && "mauve"@[0] == 'm');
    assert("pink"@.len() == 4 && "blue"@.len() == 4 && "teal"@.len() == 4);
    assert("green"@.len() == 5 && "peach"@.len() == 5 && "mauve"@.len() == 5);
    assert("yellow"@.len() == 6 && "red"@.len() == 3);
}

/// `n` steps forward through the palette.
pub open spec fn color_after(c: Color, n: nat) -> Color
    decreases n,
{
    if n == 0 {
        c
    } else {
        color_after(c, (n - 1) as nat).stepped(true)
    }
}

proof fn lemma_color_after(c: Color, n: nat)
    ensures
        color_after(c, n).rank() == (c.rank() + n) % 8,
    decreases n,
{
    lemma_step_rank(c);
    if n > 0 {
        lemma_color_after(c, (n - 1) as nat);
        lemma_step_rank(color_after(c, (n - 1) as nat));
    }
}

/// Stepping through the palette forward and back again changes nothing, and
/// eight steps forward come round to the start.
pub proof fn law_color_steps(c: Color)
    ensures
        c.stepped(true).stepped(false) == c,
        c.stepped(false).stepped(true) == c,
        color_after(c, 8) == c,
{
    lemma_step_rank(c);
    lemma_step_rank(c.stepped(true));
    lemma_step_rank(c.stepped(false));
    lemma_color_after(c, 8);
    lemma_same_rank(color_after(c, 8), c);
    lemma_same_rank(c.stepped(true).stepped(false), c);
    lemma_same_rank(c.stepped(false).stepped(true), c);
}

proof fn lemma_step_rank(c: Color)
    ensures
        0 <= c.rank() < 8,
        c.stepped(true).rank() == (c.rank() + 1) % 8,
        c.stepped(false).rank() == (c.rank() + 7) % 8,
{
    reveal(Color::stepped);
}

proof fn lemma_same_rank(a: Color, b: Color)
    requires
        a.rank() == b.rank(),
    ensures
        a == b,
{
}

/// The topmost note under a point is under it, and nothing under it is higher,
/// or as high and later.
pub proof fn law_top_at(notes: Seq<NoteView>, p: WorldPoint, n: int)
    requires
        0 <= n <= notes.len(),
    ensures
        match top_at(notes, p, n) {
            Some(i) => 0 <= i < n && notes[i].contains(p) && forall|j: int|
                0 <= j < n && (#[trigger] notes[j]).contains(p) ==> notes[j].z < notes[i].z
                    || notes[j].z == notes[i].z && j <= i,
            None => forall|j: int| 0 <= j < n ==> !(#[trigger] notes[j]).contains(p),
        },
    decreases n,
{
    if n > 0 {
        law_top_at(notes, p, n - 1);
    }
}

/// The bounding box holds every pin.
pub proof fn law_bounds_cover_every_pin(notes: Seq<NoteView>, i: int)
    requires
        0 <= i < notes.len(),
    ensures
        min_x(notes) <= notes[i].x,
        min_y(notes) <= notes[i].y,
        max_x(notes) >= notes[i].x + NOTE_W,
        max_y(notes) >= notes[i].y + NOTE_H,
    decreases notes.len(),
{
    if notes.len() > 1 {
        if i < notes.len() - 1 {
            law_bounds_cover_every_pin(notes.drop_last(), i);
        }
    }
}

/// Two pins crowd each other or neither does; a pin crowds its own place; and one step
/// of the cascade, either way, is clear of it.
pub proof fn law_crowding_is_mutual(a: NoteView, b: NoteView)
    ensures
        a.crowds(b.position()) <==> b.crowds(a.position()),
        a.crowds(a.position()),
        b.x - a.x >= CASCADE_X || a.x - b.x >= CASCADE_X ==> !a.crowds(b.position()),
        b.y - a.y >= CASCADE_Y || a.y - b.y >= CASCADE_Y ==> !a.crowds(b.position()),
        a.x == b.x && 0 <= b.y - a.y < CASCADE_Y ==> a.crowds(b.position()),
        a.y == b.y && 0 <= b.x - a.x < CASCADE_X ==> a.crowds(b.position()),
{
}

/// A pin covers 200 units to the right of its place and 150 down, its near edges
/// included and its far ones not.
pub proof fn law_a_pin_covers_its_rectangle(n: NoteView, p: WorldPoint)
    ensures
        n.contains(p) <==> 0 <= p.x - n.x < 200 * 7140 && 0 <= p.y - n.y < 150 * 7140,
        n.contains(n.position()),
{
}

} // verus!

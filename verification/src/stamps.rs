//! File names lead with the time a pin was made, and sort by it: a board's files
//! in order of name are its pins from the oldest to the newest.

use crate::files::sorts_before;
use crate::naming::{
    day_number, days_in, is_date, is_leap, is_stamp, month_start, padded, stamp, year_start,
};
use crate::text::{decimal, digit_char};
use vstd::prelude::*;

verus! {

// ---- the calendar runs one way ----

proof fn lemma_year_is_long(y: int)
    ensures
        year_start(y + 1) == year_start(y) + (if is_leap(y) {
            366int
        } else {
            365
        }),
{
    assert((y + 4) / 4 == (y + 3) / 4 + (if y % 4 == 0 {
        1int
    } else {
        0
    }));
    assert((y + 100) / 100 == (y + 99) / 100 + (if y % 100 == 0 {
        1int
    } else {
        0
    }));
    assert((y + 400) / 400 == (y + 399) / 400 + (if y % 400 == 0 {
        1int
    } else {
        0
    }));
    assert(y % 100 == 0 ==> y % 4 == 0);
    assert(y % 400 == 0 ==> y % 100 == 0);
}

proof fn lemma_years_run(y: int, later: int)
    requires
        y < later,
    ensures
        year_start(y) + (if is_leap(y) {
            366int
        } else {
            365
        }) <= year_start(later),
    decreases later - y,
{
    lemma_year_is_long(y);
    if y + 1 < later {
        lemma_years_run(y + 1, later);
    }
}

proof fn lemma_months_run(y: int, m: int, later: int)
    requires
        1 <= m < later <= 13,
    ensures
        month_start(y, m) + days_in(y, m) <= month_start(y, later),
        month_start(y, later) <= (if is_leap(y) {
            366int
        } else {
            365
        }),
{
    reveal_with_fuel(month_start, 14);
}

/// A date is before another.
pub open spec fn earlier(a: (int, int, int), b: (int, int, int)) -> bool {
    a.0 < b.0 || a.0 == b.0 && (a.1 < b.1 || a.1 == b.1 && a.2 < b.2)
}

/// Days are counted in the order of dates, so a day has one date.
pub proof fn law_days_follow_dates(a: (int, int, int), b: (int, int, int))
    requires
        is_date(a.0, a.1, a.2),
        is_date(b.0, b.1, b.2),
    ensures
        earlier(a, b) ==> day_number(a.0, a.1, a.2) < day_number(b.0, b.1, b.2),
        day_number(a.0, a.1, a.2) == day_number(b.0, b.1, b.2) ==> a == b,
{
    lemma_earlier_is_less(a, b);
    lemma_earlier_is_less(b, a);
}

/// The date after a date.
pub open spec fn next_day(a: (int, int, int)) -> (int, int, int) {
    if a.2 < days_in(a.0, a.1) {
        (a.0, a.1, a.2 + 1)
    } else if a.1 < 12 {
        (a.0, a.1 + 1, 1)
    } else {
        (a.0 + 1, 1, 1)
    }
}

/// The calendar skips no day: the date with the next number is the next date.
pub proof fn law_a_day_follows_a_day(a: (int, int, int), b: (int, int, int))
    requires
        is_date(a.0, a.1, a.2),
        is_date(b.0, b.1, b.2),
        day_number(b.0, b.1, b.2) == day_number(a.0, a.1, a.2) + 1,
    ensures
        b == next_day(a),
{
    let n = next_day(a);
    lemma_year_is_long(a.0);
    reveal_with_fuel(month_start, 14);
    assert(is_date(n.0, n.1, n.2));
    assert(day_number(n.0, n.1, n.2) == day_number(a.0, a.1, a.2) + 1);
    law_days_follow_dates(n, b);
}

proof fn lemma_earlier_is_less(a: (int, int, int), b: (int, int, int))
    requires
        is_date(a.0, a.1, a.2),
        is_date(b.0, b.1, b.2),
    ensures
        earlier(a, b) ==> day_number(a.0, a.1, a.2) < day_number(b.0, b.1, b.2),
{
    lemma_months_run(a.0, a.1, 13);
    if a.0 < b.0 {
        lemma_years_run(a.0, b.0);
        lemma_month_starts(b.0, b.1);
    } else if a.0 == b.0 && a.1 < b.1 {
        lemma_months_run(a.0, a.1, b.1);
    }
}

proof fn lemma_month_starts(y: int, m: int)
    ensures
        month_start(y, m) >= 0,
    decreases m,
{
    if m > 1 {
        lemma_month_starts(y, m - 1);
    }
}

// ---- and so do stamps ----

/// One text is below another: they differ, and where they first do it has the
/// lower character.
pub open spec fn below_at(a: Seq<char>, b: Seq<char>, i: int) -> bool {
    &&& 0 <= i < a.len()
    &&& i < b.len()
    &&& a.take(i) == b.take(i)
    &&& a[i] < b[i]
}

pub open spec fn below(a: Seq<char>, b: Seq<char>) -> bool {
    exists|i: int| #[trigger] below_at(a, b, i)
}

proof fn lemma_below_sorts(a: Seq<char>, b: Seq<char>, i: int)
    requires
        below_at(a, b, i),
    ensures
        sorts_before(a, b),
        !sorts_before(b, a),
    decreases i,
{
    if i > 0 {
        assert(a[0] == a.take(i)[0] && b[0] == b.take(i)[0]);
        assert(a.skip(1).take(i - 1) =~= a.take(i).skip(1));
        assert(b.skip(1).take(i - 1) =~= b.take(i).skip(1));
        lemma_below_sorts(a.skip(1), b.skip(1), i - 1);
    }
}

/// What stands before or behind does not matter, if it is the same before.
proof fn lemma_below_within(
    front: Seq<char>,
    a: Seq<char>,
    b: Seq<char>,
    x: Seq<char>,
    y: Seq<char>,
)
    requires
        below(a, b),
    ensures
        below(front + a + x, front + b + y),
{
    let i = choose|i: int| #[trigger] below_at(a, b, i);
    let n = front.len() as int;
    let s = front + a + x;
    let t = front + b + y;
    assert(s.take(n + i) =~= front + a.take(i));
    assert(t.take(n + i) =~= front + b.take(i));
    assert(below_at(s, t, n + i));
}

proof fn lemma_two_digits(n: nat)
    requires
        n < 100,
    ensures
        padded(n, 2) == seq![digit_char(n as int / 10), digit_char(n as int % 10)],
{
    reveal_with_fuel(decimal, 3);
    assert(padded(n, 2) =~= seq![digit_char(n as int / 10), digit_char(n as int % 10)]);
}

proof fn lemma_four_digits(n: nat)
    requires
        n < 10_000,
    ensures
        padded(n, 4) == seq![
            digit_char(n as int / 1000),
            digit_char(n as int / 100 % 10),
            digit_char(n as int / 10 % 10),
            digit_char(n as int % 10),
        ],
{
    reveal_with_fuel(decimal, 5);
    let want = seq![
        digit_char(n as int / 1000),
        digit_char(n as int / 100 % 10),
        digit_char(n as int / 10 % 10),
        digit_char(n as int % 10),
    ];
    if n < 10 {
        assert(padded(n, 4) =~= want);
    } else if n < 100 {
        assert(decimal(n) =~= seq![digit_char(n as int / 10), digit_char(n as int % 10)]);
        assert(padded(n, 4) =~= want);
    } else if n < 1000 {
        assert(n / 10 / 10 == n / 100);
        assert(decimal(n) =~= seq![
            digit_char(n as int / 100),
            digit_char(n as int / 10 % 10),
            digit_char(n as int % 10),
        ]);
        assert(padded(n, 4) =~= want);
    } else {
        assert(n / 10 / 10 == n / 100);
        assert(n / 10 / 10 / 10 == n / 1000);
        assert(decimal(n) =~= want);
        assert(padded(n, 4) =~= want);
    }
}

proof fn lemma_two_below(a: nat, b: nat)
    requires
        a < b < 100,
    ensures
        below(padded(a, 2), padded(b, 2)),
{
    lemma_two_digits(a);
    lemma_two_digits(b);
    let (s, t) = (padded(a, 2), padded(b, 2));
    if a / 10 < b / 10 {
        assert(s.take(0) =~= t.take(0));
        assert(below_at(s, t, 0));
    } else {
        assert(s.take(1) =~= t.take(1));
        assert(below_at(s, t, 1));
    }
}

proof fn lemma_four_below(a: nat, b: nat)
    requires
        a < b < 10_000,
    ensures
        below(padded(a, 4), padded(b, 4)),
{
    lemma_four_digits(a);
    lemma_four_digits(b);
    let (x, y) = (a as int, b as int);
    let (s, t) = (
        seq![x / 1000, x / 100 % 10, x / 10 % 10, x % 10],
        seq![y / 1000, y / 100 % 10, y / 10 % 10, y % 10],
    );
    assert(x / 100 / 10 == x / 1000 && y / 100 / 10 == y / 1000);
    assert(x / 10 / 10 == x / 100 && y / 10 / 10 == y / 100);
    let i = if x / 1000 < y / 1000 {
        0int
    } else if x / 100 < y / 100 {
        1
    } else if x / 10 < y / 10 {
        2
    } else {
        3
    };
    assert(x / 1000 <= y / 1000 && x / 100 <= y / 100 && x / 10 <= y / 10);
    lemma_first_digit(s, t, i, padded(a, 4), padded(b, 4));
}

/// Numerals compare as their digits do.
proof fn lemma_first_digit(a: Seq<int>, b: Seq<int>, i: int, s: Seq<char>, t: Seq<char>)
    requires
        0 <= i < a.len(),
        a.len() == b.len() == s.len() == t.len(),
        forall|k: int| 0 <= k < a.len() ==> s[k] == digit_char(#[trigger] a[k]),
        forall|k: int| 0 <= k < b.len() ==> t[k] == digit_char(#[trigger] b[k]),
        forall|k: int| 0 <= k < i ==> #[trigger] a[k] == b[k],
        0 <= a[i] < b[i] < 10,
    ensures
        below(s, t),
{
    assert forall|k: int| 0 <= k < i implies s.take(i)[k] == t.take(i)[k] by {
        assert(a[k] == b[k]);
    }
    assert(s.take(i) =~= t.take(i));
    assert(below_at(s, t, i));
}

/// The parts of a stamp, one after another.
spec fn joined(parts: Seq<Seq<char>>) -> Seq<char>
    decreases parts.len(),
{
    if parts.len() == 0 {
        Seq::empty()
    } else {
        joined(parts.drop_last()) + parts.last()
    }
}

/// Texts made of the same parts up to one that is below its counterpart.
proof fn lemma_joined_below(a: Seq<Seq<char>>, b: Seq<Seq<char>>, i: int)
    requires
        0 <= i < a.len() == b.len(),
        a.take(i) == b.take(i),
        below(a[i], b[i]),
    ensures
        below(joined(a), joined(b)),
    decreases a.len(),
{
    let none = Seq::<char>::empty();
    let (x, y) = (joined(a.drop_last()), joined(b.drop_last()));
    if i == a.len() - 1 {
        assert(a.drop_last() =~= a.take(i) && b.drop_last() =~= b.take(i));
        lemma_below_within(x, a.last(), b.last(), none, none);
        assert(x + a.last() + none =~= x + a.last());
        assert(x + b.last() + none =~= y + b.last());
    } else {
        assert(a.drop_last().take(i) =~= a.take(i) && b.drop_last().take(i) =~= b.take(i));
        lemma_joined_below(a.drop_last(), b.drop_last(), i);
        lemma_below_within(none, x, y, a.last(), b.last());
        assert(none + x =~= x && none + y =~= y);
    }
}

spec fn stamp_parts(y: int, m: int, d: int, second: int) -> Seq<Seq<char>> {
    seq![
        padded(y as nat, 4),
        "-"@,
        padded(m as nat, 2),
        "-"@,
        padded(d as nat, 2),
        "-"@,
        padded((second / 3600) as nat, 2),
        padded(((second % 3600) / 60) as nat, 2),
        padded((second % 60) as nat, 2),
    ]
}

proof fn lemma_stamp_parts(y: int, m: int, d: int, second: int)
    ensures
        joined(stamp_parts(y, m, d, second)) == stamp(y, m, d, second),
{
    let p = stamp_parts(y, m, d, second);
    assert forall|n: int| 0 < n <= 9 implies #[trigger] joined(p.take(n)) == joined(p.take(n - 1))
        + p[n - 1] by {
        assert(p.take(n).drop_last() =~= p.take(n - 1));
    }
    assert(joined(p.take(0)) =~= Seq::empty());
    assert(joined(p.take(1)) =~= p[0]);
    assert(joined(p.take(2)) == p[0] + p[1]);
    assert(joined(p.take(3)) == p[0] + p[1] + p[2]);
    assert(joined(p.take(4)) == p[0] + p[1] + p[2] + p[3]);
    assert(joined(p.take(5)) == p[0] + p[1] + p[2] + p[3] + p[4]);
    assert(joined(p.take(6)) == p[0] + p[1] + p[2] + p[3] + p[4] + p[5]);
    assert(joined(p.take(7)) == p[0] + p[1] + p[2] + p[3] + p[4] + p[5] + p[6]);
    assert(joined(p.take(8)) == p[0] + p[1] + p[2] + p[3] + p[4] + p[5] + p[6] + p[7]);
    assert(p.take(9) =~= p);
}

/// A later time has the higher stamp.
#[verifier::spinoff_prover]
#[verifier::rlimit(50)]
proof fn lemma_stamp_below(a: (int, int, int), s: int, b: (int, int, int), t: int)
    requires
        is_date(a.0, a.1, a.2),
        is_date(b.0, b.1, b.2),
        0 <= a.0 <= b.0 < 10_000,
        0 <= s < 86_400,
        0 <= t < 86_400,
        earlier(a, b) || a == b && s < t,
    ensures
        below(stamp(a.0, a.1, a.2, s), stamp(b.0, b.1, b.2, t)),
{
    lemma_stamp_parts(a.0, a.1, a.2, s);
    lemma_stamp_parts(b.0, b.1, b.2, t);
    assert(0 <= s / 3600 < 24 && 0 <= t / 3600 < 24);
    assert(0 <= (s % 3600) / 60 < 60 && 0 <= (t % 3600) / 60 < 60);
    let (p, q) = (stamp_parts(a.0, a.1, a.2, s), stamp_parts(b.0, b.1, b.2, t));
    if a.0 < b.0 {
        lemma_four_below(a.0 as nat, b.0 as nat);
        assert(p.take(0) =~= q.take(0));
        lemma_joined_below(p, q, 0);
    } else if a.1 < b.1 {
        lemma_two_below(a.1 as nat, b.1 as nat);
        assert(p.take(2) =~= q.take(2));
        lemma_joined_below(p, q, 2);
    } else if a.2 < b.2 {
        lemma_two_below(a.2 as nat, b.2 as nat);
        assert(p.take(4) =~= q.take(4));
        lemma_joined_below(p, q, 4);
    } else if s / 3600 < t / 3600 {
        lemma_two_below((s / 3600) as nat, (t / 3600) as nat);
        assert(p.take(6) =~= q.take(6));
        lemma_joined_below(p, q, 6);
    } else if (s % 3600) / 60 < (t % 3600) / 60 {
        lemma_two_below(((s % 3600) / 60) as nat, ((t % 3600) / 60) as nat);
        assert(p.take(7) =~= q.take(7));
        lemma_joined_below(p, q, 7);
    } else {
        lemma_two_below((s % 60) as nat, (t % 60) as nat);
        assert(p.take(8) =~= q.take(8));
        lemma_joined_below(p, q, 8);
    }
}

/// Seconds from the Unix epoch to the year that needs a fifth digit.
pub open spec fn last_stamp() -> int {
    253_402_300_800
}

/// Names that lead with a stamp sort by it: what was made earlier comes first,
/// whatever follows the stamp.
pub proof fn law_stamps_sort_by_time(
    a: Seq<char>,
    from: int,
    b: Seq<char>,
    to: int,
    x: Seq<char>,
    y: Seq<char>,
)
    requires
        is_stamp(a, from),
        is_stamp(b, to),
        0 <= from < to < last_stamp(),
    ensures
        sorts_before(a + x, b + y),
        !sorts_before(b + y, a + x),
{
    let (y1, m1, d1) = choose|y: int, m: int, d: int|
        #![trigger day_number(y, m, d)]
        is_date(y, m, d) && day_number(y, m, d) == from / 86_400 && a == stamp(
            y,
            m,
            d,
            from % 86_400,
        );
    let (y2, m2, d2) = choose|y: int, m: int, d: int|
        #![trigger day_number(y, m, d)]
        is_date(y, m, d) && day_number(y, m, d) == to / 86_400 && b == stamp(y, m, d, to % 86_400);
    law_days_follow_dates((y1, m1, d1), (y2, m2, d2));
    law_days_follow_dates((y2, m2, d2), (y1, m1, d1));
    // The years are those between the epoch and the last that has four digits.
    law_days_follow_dates((y1, m1, d1), (1970, 1, 1));
    law_days_follow_dates((y2, m2, d2), (1970, 1, 1));
    law_days_follow_dates((10_000, 1, 1), (y1, m1, d1));
    law_days_follow_dates((10_000, 1, 1), (y2, m2, d2));
    reveal_with_fuel(month_start, 2);
    assert(day_number(10_000, 1, 1) == 2_932_897);
    assert(day_number(1970, 1, 1) == 0);
    lemma_stamp_below((y1, m1, d1), from % 86_400, (y2, m2, d2), to % 86_400);
    let none = Seq::<char>::empty();
    lemma_below_within(none, a, b, x, y);
    assert(none + a + x =~= a + x && none + b + y =~= b + y);
    let i = choose|i: int| #[trigger] below_at(a + x, b + y, i);
    lemma_below_sorts(a + x, b + y, i);
}

} // verus!

//! Naming pin files: a timestamp, so a directory lists its pins oldest first,
//! and a slug of the title, so a person can tell them apart.

use crate::geometry::floor_div;
use crate::text::{
    chars_of, decimal, lower, lower_char, push_all, push_decimal, push_text, string_of, sub_vec,
};
use vstd::prelude::*;

verus! {

/// Longest slug taken from a title when naming a file.
pub const SLUG_MAX: usize = 40;

/// An ASCII letter or digit.
pub open spec fn is_plain(c: char) -> bool {
    'a' <= c <= 'z' || 'A' <= c <= 'Z' || '0' <= c <= '9'
}

/// The first `n` characters of a title as a slug in the making: letters and
/// digits made small, each run of anything else one hyphen, and no more once it
/// is long enough.
pub open spec fn slug_upto(s: Seq<char>, n: int) -> Seq<char>
    decreases n,
{
    if n <= 0 {
        Seq::empty()
    } else {
        let out = slug_upto(s, n - 1);
        let c = s[n - 1];
        if out.len() >= SLUG_MAX {
            out
        } else if is_plain(c) {
            out.push(lower_char(c))
        } else if out.len() > 0 && out.last() == '-' {
            out
        } else {
            out.push('-')
        }
    }
}

/// The text without the hyphens at its start.
pub open spec fn unhyphen_start(s: Seq<char>) -> Seq<char>
    decreases s.len(),
{
    if s.len() > 0 && s[0] == '-' {
        unhyphen_start(s.skip(1))
    } else {
        s
    }
}

/// The text without the hyphens at its end.
pub open spec fn unhyphen_end(s: Seq<char>) -> Seq<char>
    decreases s.len(),
{
    if s.len() > 0 && s.last() == '-' {
        unhyphen_end(s.drop_last())
    } else {
        s
    }
}

/// A title's slug. One that leaves nothing is "untitled".
pub open spec fn slug_of(title: Seq<char>) -> Seq<char> {
    let bare = unhyphen_end(unhyphen_start(slug_upto(title, title.len() as int)));
    if bare.len() == 0 {
        "untitled"@
    } else {
        bare
    }
}

/// A filename-safe slug of a title: lowercase, runs of anything else collapsed
/// to single hyphens.
pub fn slug(title: &str) -> (out: String)
    ensures
        out@ == slug_of(title@),
{
    let chars = chars_of(title);
    let mut out: Vec<char> = Vec::new();
    let mut i: usize = 0;
    proof {
        assert(out@ =~= Seq::<char>::empty());
    }
    while i < chars.len()
        invariant
            i <= chars@.len(),
            out@ == slug_upto(chars@, i as int),
        decreases chars@.len() - i,
    {
        let c = chars[i];
        if out.len() < SLUG_MAX {
            if 'a' <= c && c <= 'z' || '0' <= c && c <= '9' {
                out.push(c);
            } else if 'A' <= c && c <= 'Z' {
                out.push((c as u8 + 32) as char);
            } else if out.len() == 0 || out[out.len() - 1] != '-' {
                out.push('-');
            }
        }
        i += 1;
    }
    let mut from: usize = 0;
    proof {
        assert(out@.skip(0) =~= out@);
    }
    while from < out.len() && out[from] == '-'
        invariant
            from <= out@.len(),
            unhyphen_start(out@.skip(from as int)) == unhyphen_start(out@),
        decreases out@.len() - from,
    {
        proof {
            assert(out@.skip(from as int).skip(1) =~= out@.skip(from + 1));
        }
        from += 1;
    }
    let ghost mid = unhyphen_start(out@);
    let mut to: usize = out.len();
    proof {
        assert(out@.skip(from as int) == mid);
        assert(out@.subrange(from as int, to as int) =~= mid);
    }
    while to > from && out[to - 1] == '-'
        invariant
            from <= to <= out@.len(),
            unhyphen_end(out@.subrange(from as int, to as int)) == unhyphen_end(mid),
        decreases to,
    {
        proof {
            assert(out@.subrange(from as int, to as int).drop_last() =~= out@.subrange(
                from as int,
                to - 1,
            ));
        }
        to -= 1;
    }
    let bare = sub_vec(&out, from, to);
    if bare.len() == 0 {
        "untitled".to_owned()
    } else {
        string_of(&bare)
    }
}

/// A character a slug may hold.
pub open spec fn in_slug(c: char) -> bool {
    'a' <= c <= 'z' || '0' <= c <= '9' || c == '-'
}

/// No two hyphens side by side.
pub open spec fn no_double(s: Seq<char>) -> bool {
    forall|i: int| #![trigger s[i]] 0 <= i < s.len() - 1 && s[i] == '-' ==> s[i + 1] != '-'
}

proof fn lemma_slug_upto(s: Seq<char>, n: int)
    requires
        0 <= n <= s.len(),
    ensures
        slug_upto(s, n).len() <= SLUG_MAX,
        forall|i: int| 0 <= i < slug_upto(s, n).len() ==> in_slug(#[trigger] slug_upto(s, n)[i]),
        no_double(slug_upto(s, n)),
    decreases n,
{
    if n > 0 {
        lemma_slug_upto(s, n - 1);
    }
}

proof fn lemma_unhyphen_start(s: Seq<char>)
    ensures
        exists|k: int| 0 <= k <= s.len() && #[trigger] s.skip(k) == unhyphen_start(s),
        unhyphen_start(s).len() > 0 ==> unhyphen_start(s)[0] != '-',
    decreases s.len(),
{
    if s.len() > 0 && s[0] == '-' {
        lemma_unhyphen_start(s.skip(1));
        let k = choose|k: int|
            0 <= k <= s.skip(1).len() && #[trigger] s.skip(1).skip(k) == unhyphen_start(s.skip(1));
        assert(s.skip(k + 1) =~= s.skip(1).skip(k));
    } else {
        assert(s.skip(0) =~= s);
    }
}

proof fn lemma_unhyphen_end(s: Seq<char>)
    ensures
        exists|k: int| 0 <= k <= s.len() && #[trigger] s.take(k) == unhyphen_end(s),
        unhyphen_end(s).len() > 0 ==> unhyphen_end(s).last() != '-',
    decreases s.len(),
{
    if s.len() > 0 && s.last() == '-' {
        lemma_unhyphen_end(s.drop_last());
        let k = choose|k: int|
            0 <= k <= s.drop_last().len() && #[trigger] s.drop_last().take(k) == unhyphen_end(
                s.drop_last(),
            );
        assert(s.take(k) =~= s.drop_last().take(k));
    } else {
        assert(s.take(s.len() as int) =~= s);
    }
}

/// A slug is a safe file name: not empty, at most forty characters, all of them
/// small letters, digits and hyphens, with a hyphen at neither end and no two
/// side by side.
pub proof fn law_a_slug_is_a_file_name(title: Seq<char>)
    ensures
        0 < slug_of(title).len() <= 40,
        forall|i: int| 0 <= i < slug_of(title).len() ==> in_slug(#[trigger] slug_of(title)[i]),
        slug_of(title)[0] != '-',
        slug_of(title).last() != '-',
        no_double(slug_of(title)),
{
    let raw = slug_upto(title, title.len() as int);
    lemma_slug_upto(title, title.len() as int);
    lemma_unhyphen_start(raw);
    let k = choose|k: int| 0 <= k <= raw.len() && #[trigger] raw.skip(k) == unhyphen_start(raw);
    let mid = raw.skip(k);
    lemma_unhyphen_end(mid);
    let j = choose|j: int| 0 <= j <= mid.len() && #[trigger] mid.take(j) == unhyphen_end(mid);
    let bare = mid.take(j);
    assert(forall|i: int| 0 <= i < bare.len() ==> #[trigger] bare[i] == raw[i + k]);
    assert forall|i: int| #![trigger bare[i]] 0 <= i < bare.len() - 1 && bare[i] == '-' implies bare[i
        + 1] != '-' by {
        assert(raw[i + k] == '-');
        assert(raw[i + k + 1] != '-');
    }
    reveal_strlit("untitled");
}

/// The letters and digits of a text, in order and small.
pub open spec fn letters(s: Seq<char>) -> Seq<char>
    decreases s.len(),
{
    if s.len() == 0 {
        Seq::empty()
    } else if is_plain(s.last()) {
        letters(s.drop_last()).push(lower_char(s.last()))
    } else {
        letters(s.drop_last())
    }
}

proof fn lemma_letters_concat(a: Seq<char>, b: Seq<char>)
    ensures
        letters(a + b) == letters(a) + letters(b),
    decreases b.len(),
{
    if b.len() == 0 {
        assert(a + b =~= a);
        assert(letters(a) + letters(b) =~= letters(a));
    } else {
        lemma_letters_concat(a, b.drop_last());
        assert((a + b).drop_last() =~= a + b.drop_last());
        assert(letters(a + b) =~= letters(a) + letters(b));
    }
}

proof fn lemma_no_letters(s: Seq<char>)
    requires
        forall|i: int| 0 <= i < s.len() ==> !is_plain(#[trigger] s[i]),
    ensures
        letters(s).len() == 0,
    decreases s.len(),
{
    if s.len() > 0 {
        lemma_no_letters(s.drop_last());
    }
}

proof fn lemma_slug_letters(s: Seq<char>, n: int)
    requires
        0 <= n <= s.len(),
    ensures
        letters(slug_upto(s, n)).is_prefix_of(letters(s.take(n))),
        slug_upto(s, n).len() < SLUG_MAX ==> letters(slug_upto(s, n)) == letters(s.take(n)),
        letters(slug_upto(s, n)).len() == 0 ==> slug_upto(s, n).len() <= 1,
        slug_upto(s, n).len() <= n,
    decreases n,
{
    if n > 0 {
        lemma_slug_letters(s, n - 1);
        lemma_slug_upto(s, n - 1);
        let less = slug_upto(s, n - 1);
        let out = slug_upto(s, n);
        assert(s.take(n).drop_last() =~= s.take(n - 1));
        assert(s.take(n).last() == s[n - 1]);
        if out.len() > less.len() {
            assert(out.drop_last() =~= less);
        }
        assert(letters(s.take(n - 1)).is_prefix_of(letters(s.take(n))));
    }
}

proof fn lemma_unhyphened_letters(s: Seq<char>)
    ensures
        letters(unhyphen_start(s)) == letters(s),
        letters(unhyphen_end(s)) == letters(s),
    decreases s.len(),
{
    if s.len() > 0 && s[0] == '-' {
        lemma_unhyphened_letters(s.skip(1));
        assert(s =~= seq!['-'] + s.skip(1));
        lemma_letters_concat(seq!['-'], s.skip(1));
        lemma_no_letters(seq!['-']);
        assert(letters(s) =~= letters(s.skip(1)));
    }
    if s.len() > 0 && s.last() == '-' {
        lemma_unhyphened_letters(s.drop_last());
    }
}

/// A slug spells what the title spells: its letters and digits are the title's, small
/// and in order, from the first on, and all of them where the title is short enough.
/// Only a title without any is "untitled".
pub proof fn law_a_slug_spells_the_title(title: Seq<char>)
    ensures
        letters(title).len() == 0 ==> slug_of(title) == "untitled"@,
        letters(title).len() > 0 ==> letters(slug_of(title)).len() > 0 && letters(
            slug_of(title),
        ).is_prefix_of(letters(title)),
        letters(title).len() > 0 && title.len() < SLUG_MAX ==> letters(slug_of(title)) == letters(
            title,
        ),
{
    let n = title.len() as int;
    let raw = slug_upto(title, n);
    assert(title.take(n) =~= title);
    lemma_slug_upto(title, n);
    lemma_slug_letters(title, n);
    lemma_unhyphened_letters(raw);
    lemma_unhyphened_letters(unhyphen_start(raw));
    let bare = unhyphen_end(unhyphen_start(raw));
    assert(letters(bare) == letters(raw));
    if letters(title).len() == 0 {
        assert(raw.len() <= 1);
        reveal_with_fuel(unhyphen_start, 2);
        reveal_with_fuel(letters, 2);
        if raw.len() == 1 {
            assert(raw.drop_last() =~= Seq::empty());
            assert(!is_plain(raw[0]));
            assert(in_slug(raw[0]));
            assert(raw.skip(1) =~= Seq::empty());
        }
    } else {
        assert(Seq::<char>::empty() =~= letters(Seq::<char>::empty()));
        if bare.len() == 0 {
            assert(bare =~= Seq::empty());
        }
    }
}

proof fn lemma_slug_word(s: Seq<char>, from: int, n: int)
    requires
        0 <= from <= n <= s.len(),
        n - from + slug_upto(s, from).len() <= SLUG_MAX,
        forall|i: int| from <= i < n ==> is_plain(#[trigger] s[i]),
    ensures
        slug_upto(s, n) == slug_upto(s, from) + lower(s.subrange(from, n)),
    decreases n - from,
{
    if n > from {
        lemma_slug_word(s, from, n - 1);
        assert(lower(s.subrange(from, n)) =~= lower(s.subrange(from, n - 1)).push(
            lower_char(s[n - 1]),
        ));
        assert(slug_upto(s, n) =~= slug_upto(s, from) + lower(s.subrange(from, n)));
    } else {
        assert(lower(s.subrange(from, n)) =~= Seq::empty());
        assert(slug_upto(s, n) =~= slug_upto(s, from) + lower(s.subrange(from, n)));
    }
}

proof fn lemma_slug_gap(s: Seq<char>, from: int, n: int)
    requires
        0 < from < n <= s.len(),
        slug_upto(s, from).len() < SLUG_MAX,
        slug_upto(s, from).len() > 0,
        slug_upto(s, from).last() != '-',
        forall|i: int| from <= i < n ==> !is_plain(#[trigger] s[i]),
    ensures
        slug_upto(s, n) == slug_upto(s, from).push('-'),
    decreases n - from,
{
    if n - 1 > from {
        lemma_slug_gap(s, from, n - 1);
    }
}

/// Words stay words: two of them with anything else between them become the same two,
/// small, with one hyphen between them.
pub proof fn law_a_slug_keeps_words_apart(a: Seq<char>, gap: Seq<char>, b: Seq<char>)
    requires
        0 < a.len(),
        0 < gap.len(),
        0 < b.len(),
        a.len() + 1 + b.len() <= SLUG_MAX,
        forall|i: int| 0 <= i < a.len() ==> is_plain(#[trigger] a[i]),
        forall|i: int| 0 <= i < gap.len() ==> !is_plain(#[trigger] gap[i]),
        forall|i: int| 0 <= i < b.len() ==> is_plain(#[trigger] b[i]),
    ensures
        slug_of(a + gap + b) == lower(a) + seq!['-'] + lower(b),
        slug_of(a) == lower(a),
{
    let s = a + gap + b;
    let (i, j, n) = (a.len() as int, a.len() + gap.len(), s.len() as int);
    assert(slug_upto(s, 0) =~= Seq::empty());
    assert forall|k: int| 0 <= k < i implies is_plain(#[trigger] s[k]) by {
        assert(s[k] == a[k]);
    }
    assert forall|k: int| i <= k < j implies !is_plain(#[trigger] s[k]) by {
        assert(s[k] == gap[k - i]);
    }
    assert forall|k: int| j <= k < n implies is_plain(#[trigger] s[k]) by {
        assert(s[k] == b[k - j]);
    }
    lemma_slug_word(s, 0, i);
    assert(s.subrange(0, i) =~= a);
    assert(slug_upto(s, i) =~= lower(a));
    lemma_lower_plain(a);
    lemma_slug_gap(s, i, j as int);
    lemma_slug_word(s, j as int, n);
    assert(s.subrange(j as int, n) =~= b);
    lemma_lower_plain(b);
    let out = slug_upto(s, n);
    assert(out =~= lower(a) + seq!['-'] + lower(b));
    assert(out[0] == lower(a)[0] && out.last() == lower(b).last());
    lemma_slug_word(a, 0, i);
    assert(slug_upto(a, 0) =~= Seq::empty());
    assert(a.subrange(0, i) =~= a);
    assert(slug_upto(a, i) =~= lower(a));
}

proof fn lemma_lower_plain(s: Seq<char>)
    requires
        s.len() > 0,
        forall|i: int| 0 <= i < s.len() ==> is_plain(#[trigger] s[i]),
    ensures
        lower(s).len() == s.len(),
        lower(s)[0] != '-',
        lower(s).last() != '-',
{
    assert(is_plain(s[0]) && is_plain(s[s.len() - 1]));
}

// ---- dates ----

pub open spec fn is_leap(y: int) -> bool {
    y % 4 == 0 && (y % 100 != 0 || y % 400 == 0)
}

pub open spec fn days_in(y: int, m: int) -> int {
    if m == 2 {
        if is_leap(y) {
            29
        } else {
            28
        }
    } else if m == 4 || m == 6 || m == 9 || m == 11 {
        30
    } else {
        31
    }
}

/// Days from the first day of year zero to the first day of year `y`: 365 for
/// each year, and one for each leap year among them.
pub open spec fn year_start(y: int) -> int {
    365 * y + (y + 3) / 4 - (y + 99) / 100 + (y + 399) / 400
}

/// Days of year `y` before month `m`.
pub open spec fn month_start(y: int, m: int) -> int
    decreases m,
{
    if m <= 1 {
        0
    } else {
        month_start(y, m - 1) + days_in(y, m - 1)
    }
}

/// Days from the Unix epoch to a date.
pub open spec fn day_number(y: int, m: int, d: int) -> int {
    year_start(y) - year_start(1970) + month_start(y, m) + d - 1
}

/// A date the calendar has.
pub open spec fn is_date(y: int, m: int, d: int) -> bool {
    1 <= m <= 12 && 1 <= d <= days_in(y, m)
}

/// A day of a cycle of four hundred years that start in March: its century, its
/// four years, its year, and the day of that year.
fn split_cycle(of_era: i64) -> (out: (i64, i64, i64, i64))
    requires
        0 <= of_era < 146_097,
    ensures
        0 <= out.0 <= 3,
        0 <= out.1 <= 24,
        0 <= out.2 <= 3,
        0 <= out.3 <= 365,
        of_era == 36_524 * out.0 + 1461 * out.1 + 365 * out.2 + out.3,
        out.3 == 365 ==> out.2 == 3 && (out.1 < 24 || out.0 == 3),
{
    let century: i64 = if of_era < 109_572 {
        of_era / 36_524
    } else {
        3
    };
    let of_century: i64 = of_era - century * 36_524;
    assert(0 <= of_century <= 36_524 && (century < 3 ==> of_century < 36_524));
    let four: i64 = of_century / 1461;
    let of_four: i64 = of_century - four * 1461;
    assert(0 <= of_four <= 1460 && 0 <= four <= 24);
    assert(four == 24 && of_four == 1460 ==> of_century == 36_524);
    let one: i64 = if of_four < 1095 {
        of_four / 365
    } else {
        3
    };
    (century, four, one, of_four - one * 365)
}

/// The date a number of days after the Unix epoch: the one date with that
/// number.
pub fn civil_from_days(z: i64) -> (out: (i64, u32, u32))
    ensures
        is_date(out.0 as int, out.1 as int, out.2 as int),
        day_number(out.0 as int, out.1 as int, out.2 as int) == z,
        z >= 0 ==> out.0 >= 0,
{
    // Count from the first of March of year zero, so a leap day comes last.
    let days: i128 = z as i128 + 719_468;
    let era: i128 = floor_div(days, 146_097);
    let of_era: i64 = (days - era * 146_097) as i64;
    let (century, four, one, of_year) = split_cycle(of_era);
    let year: i64 = (era * 400) as i64 + century * 100 + four * 4 + one;
    let shifted: i64 = (5 * of_year + 2) / 153;
    let day: i64 = of_year - (153 * shifted + 2) / 5 + 1;
    proof {
        lemma_march_year(era as int, century as int, four as int, one as int, of_year as int);
        lemma_month(year as int, shifted as int, of_year as int);
        assert(year_start(1970) == 719_528);
    }
    if shifted < 10 {
        (year, (shifted + 3) as u32, day as u32)
    } else {
        (year + 1, (shifted - 9) as u32, day as u32)
    }
}

/// Where a year that starts in March lies, and when it ends in a leap day.
proof fn lemma_march_year(era: int, century: int, four: int, one: int, of_year: int)
    requires
        0 <= century <= 3,
        0 <= four <= 24,
        0 <= one <= 3,
        0 <= of_year <= 365,
        of_year == 365 ==> one == 3 && (four < 24 || century == 3),
    ensures
        ({
            let y = era * 400 + century * 100 + four * 4 + one;
            &&& year_start(y) + 59 + (if is_leap(y) {
                1int
            } else {
                0
            }) == 60 + 146_097 * era + 36_524 * century + 1461 * four + 365 * one
            &&& year_start(y + 1) == 366 + 146_097 * era + 36_524 * century + 1461 * four + 365
                * one
            &&& of_year == 365 ==> is_leap(y + 1)
        }),
{
    let y = era * 400 + century * 100 + four * 4 + one;
    let k = 100 * era + 25 * century + four;
    let h = 4 * era + century;
    let s = four * 4 + one;
    let t = century * 100 + s;
    lemma_div(y, k, one, 4);
    lemma_div(y, h, s, 100);
    lemma_div(y, era, t, 400);
    lemma_div(y + 1, k + (one + 1) / 4, (one + 1) % 4, 4);
    lemma_div(y + 1, h + (s + 1) / 100, (s + 1) % 100, 100);
    lemma_div(y + 1, era + (t + 1) / 400, (t + 1) % 400, 400);
    lemma_div(y + 3, k + (one + 3) / 4, (one + 3) % 4, 4);
    lemma_div(y + 99, h + (s + 99) / 100, (s + 99) % 100, 100);
    lemma_div(y + 399, era + (t + 399) / 400, (t + 399) % 400, 400);
    lemma_div(y + 4, k + 1, one, 4);
    lemma_div(y + 100, h + 1, s, 100);
    lemma_div(y + 400, era + 1, t, 400);
}

/// A quotient and a remainder that fit are the ones.
proof fn lemma_div(a: int, q: int, r: int, d: int)
    requires
        0 <= r < d,
        a == q * d + r,
    ensures
        a / d == q,
        a % d == r,
{
    vstd::arithmetic::div_mod::lemma_fundamental_div_mod_converse(a, d, q, r);
}

/// Which month a day of a March year is in, and that the month has that day.
proof fn lemma_month(year: int, shifted: int, of_year: int)
    requires
        0 <= of_year <= 365,
        shifted == (5 * of_year + 2) / 153,
        of_year == 365 ==> is_leap(year + 1),
    ensures
        ({
            let day = of_year - (153 * shifted + 2) / 5 + 1;
            let (y, m) = if shifted < 10 {
                (year, shifted + 3)
            } else {
                (year + 1, shifted - 9)
            };
            &&& is_date(y, m, day)
            &&& shifted < 10 ==> month_start(y, m) + day - 1 == 59 + (if is_leap(y) {
                1int
            } else {
                0
            }) + of_year
            &&& shifted >= 10 ==> month_start(y, m) + day - 1 == of_year - 306
        }),
{
    reveal_with_fuel(month_start, 13);
}

/// A number in decimal, zeros in front of it up to a width.
pub open spec fn padded(n: nat, width: int) -> Seq<char> {
    let d = decimal(n);
    Seq::new(
        (if width > d.len() {
            width - d.len()
        } else {
            0
        }) as nat,
        |i: int| '0',
    ) + d
}

/// Append a number with zeros in front of it up to a width.
fn push_padded(out: &mut Vec<char>, n: u64, width: usize)
    ensures
        final(out)@ == old(out)@ + padded(n as nat, width as int),
{
    let ghost start = out@;
    let mut digits: Vec<char> = Vec::new();
    push_decimal(&mut digits, n);
    proof {
        assert(digits@ =~= decimal(n as nat));
    }
    let mut len: usize = digits.len();
    let ghost mut zeros: Seq<char> = Seq::empty();
    while len < width
        invariant
            digits@.len() <= len,
            len <= width || len == digits@.len(),
            zeros.len() == len - digits@.len(),
            forall|i: int| 0 <= i < zeros.len() ==> zeros[i] == '0',
            out@ == start + zeros,
        decreases width - len,
    {
        out.push('0');
        len += 1;
        proof {
            let more = zeros.push('0');
            assert(start + more =~= (start + zeros).push('0'));
            zeros = more;
        }
    }
    push_all(out, &digits);
    proof {
        assert(zeros + digits@ =~= padded(n as nat, width as int));
        assert(out@ =~= start + padded(n as nat, width as int));
    }
}

/// The name a second gives a file: date and time of day, in UTC.
pub open spec fn stamp(y: int, m: int, d: int, second: int) -> Seq<char> {
    padded(y as nat, 4) + "-"@ + padded(m as nat, 2) + "-"@ + padded(d as nat, 2) + "-"@ + padded(
        (second / 3600) as nat,
        2,
    ) + padded(((second % 3600) / 60) as nat, 2) + padded((second % 60) as nat, 2)
}

/// A text is the stamp of a number of seconds since the Unix epoch.
pub open spec fn is_stamp(s: Seq<char>, secs: int) -> bool {
    exists|y: int, m: int, d: int|
        #![trigger day_number(y, m, d)]
        is_date(y, m, d) && day_number(y, m, d) == secs / 86_400 && s == stamp(
            y,
            m,
            d,
            secs % 86_400,
        )
}

/// `YYYY-MM-DD-HHMMSS` in UTC. UTC rather than local time because it only ever
/// names a file - the pin's own text is what anyone reads.
pub fn timestamp_prefix(secs: u64) -> (out: String)
    ensures
        is_stamp(out@, secs as int),
{
    let days: i64 = (secs / 86_400) as i64;
    let rem: u64 = secs % 86_400;
    let (y, m, d) = civil_from_days(days);
    let mut out: Vec<char> = Vec::new();
    push_padded(&mut out, y as u64, 4);
    push_text(&mut out, "-");
    push_padded(&mut out, m as u64, 2);
    push_text(&mut out, "-");
    push_padded(&mut out, d as u64, 2);
    push_text(&mut out, "-");
    push_padded(&mut out, rem / 3600, 2);
    push_padded(&mut out, (rem % 3600) / 60, 2);
    push_padded(&mut out, rem % 60, 2);
    proof {
        assert(out@ =~= stamp(y as int, m as int, d as int, rem as int));
        assert(day_number(y as int, m as int, d as int) == secs as int / 86_400);
    }
    string_of(&out)
}

} // verus!

//! Coordinates as a pin file spells them.
//!
//! A file holds world units, in decimal: whole numbers when pinz wrote them,
//! and whatever a person typed otherwise - a fraction, an exponent, a word.
//! Reading gives grains; writing rounds to whole units.

use crate::geometry::GRAIN;
use crate::text::{chars_of, digits_value, is_digit, lower, lowered, same_chars};
use vstd::prelude::*;

verus! {

/// How far from the origin a coordinate read from a file can be, in world
/// units: as far as one that was written, which has 64 bits. Anything further
/// out is pulled back to the edge.
pub const EDGE: i128 = 9_223_372_036_854_775_808;

/// The whole world units nearest to a coordinate, halves away from zero.
pub open spec fn nearest_unit(g: int) -> int {
    if g >= 0 {
        (2 * g + 7140) / 14_280
    } else {
        -((7140 - 2 * g) / 14_280)
    }
}

/// The units a coordinate is written as: the nearest, of those that have 64 bits.
pub open spec fn units(g: int) -> int {
    if nearest_unit(g) > i64::MAX {
        i64::MAX as int
    } else if nearest_unit(g) < i64::MIN {
        i64::MIN as int
    } else {
        nearest_unit(g)
    }
}

/// The units a coordinate is written as.
pub fn to_units(g: i128) -> (u: i64)
    ensures
        u == units(g as int),
{
    if g >= EDGE * GRAIN {
        i64::MAX
    } else if g <= -EDGE * GRAIN {
        i64::MIN
    } else if g >= 0 {
        let n: i128 = (2 * g + 7140) / 14_280;
        if n > i64::MAX as i128 {
            i64::MAX
        } else {
            n as i64
        }
    } else {
        let n: i128 = (7140 - 2 * g) / 14_280;
        (-n) as i64
    }
}

/// The digits of a text up to `n`.
pub open spec fn digits_upto(s: Seq<char>, from: int) -> int
    decreases s.len() - from,
{
    if 0 <= from < s.len() && is_digit(s[from]) {
        digits_upto(s, from + 1)
    } else {
        from
    }
}

/// A number as written: digits, a point among them, and a power of ten.
#[verifier::ext_equal]
pub struct Written {
    pub negative: bool,
    pub digits: Seq<char>,
    /// How many of the digits, counted from the left, are before the point
    /// once the power of ten is applied. May be negative, or past the end.
    pub point: int,
}

/// A power of ten as written, kept within reason.
pub open spec fn exponent(s: Seq<char>) -> Option<int> {
    let signed = s.len() > 0 && (s[0] == '+' || s[0] == '-');
    let d = if signed {
        s.skip(1)
    } else {
        s
    };
    if !crate::text::all_digits(d) {
        None
    } else {
        let v = if digits_value(d) < 1_000_000_000_000 {
            digits_value(d)
        } else {
            1_000_000_000_000
        };
        Some(
            if signed && s[0] == '-' {
                -v
            } else {
                v
            },
        )
    }
}

/// A plain number: digits with at most one point among them and at least one
/// digit, then an exponent if there is one.
pub open spec fn plain_number(s: Seq<char>, negative: bool) -> Option<Written> {
    let a = digits_upto(s, 0);
    let dotted = a < s.len() && s[a] == '.';
    let b = if dotted {
        digits_upto(s, a + 1)
    } else {
        a
    };
    let digits = s.take(a) + if dotted {
        s.subrange(a + 1, b)
    } else {
        Seq::empty()
    };
    if digits.len() == 0 {
        None
    } else if b == s.len() {
        Some(Written { negative, digits, point: a })
    } else if s[b] == 'e' || s[b] == 'E' {
        match exponent(s.skip(b + 1)) {
            Some(e) => Some(Written { negative, digits, point: a + e }),
            None => None,
        }
    } else {
        None
    }
}

/// The digit at a place, zero where none is written.
pub open spec fn digit_at(digits: Seq<char>, i: int) -> int {
    if 0 <= i < digits.len() {
        crate::text::digit_value(digits[i])
    } else {
        0
    }
}

/// The number before the point, counting no higher than the edge.
pub open spec fn whole_part(digits: Seq<char>, point: int) -> int
    decreases point,
{
    if point <= 0 {
        0
    } else {
        let v = whole_part(digits, point - 1) * 10 + digit_at(digits, point - 1);
        if v < EDGE {
            v
        } else {
            EDGE as int
        }
    }
}

/// The first `n` digits after the point, as a number.
pub open spec fn fraction_part(digits: Seq<char>, point: int, n: int) -> int
    decreases n,
{
    if n <= 0 {
        0
    } else {
        fraction_part(digits, point, n - 1) * 10 + digit_at(digits, point + n - 1)
    }
}

/// The distance from zero in grains, cut off below the grain and at the edge.
/// Digits past the eighteenth after the point do not count.
pub open spec fn magnitude(digits: Seq<char>, point: int) -> int {
    let whole = whole_part(digits, point);
    if whole >= EDGE {
        EDGE * 7140
    } else {
        whole * 7140 + (fraction_part(digits, point, 18) * 7140) / 1_000_000_000_000_000_000
    }
}

/// The coordinate a text spells, in grains: a number, or a word for one that is
/// off the map or is none at all.
pub open spec fn coordinate(s: Seq<char>) -> Option<int> {
    let signed = s.len() > 0 && (s[0] == '+' || s[0] == '-');
    let negative = signed && s[0] == '-';
    let rest = if signed {
        s.skip(1)
    } else {
        s
    };
    let word = lower(rest);
    let size = if word == "inf"@ || word == "infinity"@ {
        Some(EDGE * 7140)
    } else if word == "nan"@ {
        Some(0)
    } else {
        match plain_number(rest, negative) {
            Some(w) => Some(magnitude(w.digits, w.point)),
            None => None,
        }
    };
    match size {
        Some(v) => Some(
            if negative {
                -v
            } else {
                v
            },
        ),
        None => None,
    }
}

fn digits_end(s: &[char], from: usize) -> (to: usize)
    requires
        from <= s@.len(),
    ensures
        to == digits_upto(s@, from as int),
        from <= to <= s@.len(),
        forall|k: int| from <= k < to ==> is_digit(#[trigger] s@[k]),
{
    let mut i: usize = from;
    while i < s.len() && '0' <= s[i] && s[i] <= '9'
        invariant
            from <= i <= s@.len(),
            digits_upto(s@, from as int) == digits_upto(s@, i as int),
            forall|k: int| from <= k < i ==> is_digit(#[trigger] s@[k]),
        decreases s@.len() - i,
    {
        i += 1;
    }
    i
}

fn parse_exponent(s: &[char]) -> (out: Option<i64>)
    ensures
        match out {
            Some(e) => exponent(s@) == Some(e as int) && -1_000_000_000_000 <= e
                <= 1_000_000_000_000,
            None => exponent(s@) is None,
        },
{
    let signed = s.len() > 0 && (s[0] == '+' || s[0] == '-');
    let negative = signed && s[0] == '-';
    let start: usize = if signed {
        1
    } else {
        0
    };
    let d = crate::text::sub_vec(s, start, s.len());
    proof {
        if signed {
            assert(d@ =~= s@.skip(1));
        } else {
            assert(d@ =~= s@);
        }
    }
    if d.len() == 0 {
        return None;
    }
    let top: i64 = 1_000_000_000_000;
    let mut v: i64 = 0;
    let mut i: usize = 0;
    while i < d.len()
        invariant
            i <= d@.len(),
            top == 1_000_000_000_000,
            signed == (s@.len() > 0 && (s@[0] == '+' || s@[0] == '-')),
            d@ == (if signed {
                s@.skip(1)
            } else {
                s@
            }),
            0 <= v <= top,
            forall|k: int| 0 <= k < i ==> is_digit(#[trigger] d@[k]),
            v == top ==> digits_value(d@.take(i as int)) >= top,
            v < top ==> digits_value(d@.take(i as int)) == v,
        decreases d@.len() - i,
    {
        let c = d[i];
        if !('0' <= c && c <= '9') {
            proof {
                assert(!is_digit(d@[i as int]));
            }
            return None;
        }
        proof {
            assert(d@.take(i + 1).drop_last() =~= d@.take(i as int));
        }
        v = v * 10 + (c as i64 - 48);
        if v > top {
            v = top;
        }
        i += 1;
    }
    proof {
        assert(d@.take(d@.len() as int) =~= d@);
    }
    Some(
        if negative {
            -v
        } else {
            v
        },
    )
}

fn digit_of(digits: &[char], i: i128) -> (d: u64)
    requires
        forall|k: int| 0 <= k < digits@.len() ==> is_digit(#[trigger] digits@[k]),
    ensures
        d == digit_at(digits@, i as int),
        d <= 9,
{
    if 0 <= i && i < digits.len() as i128 {
        assert(is_digit(digits@[i as int]));
        digits[i as usize] as u64 - 48
    } else {
        0
    }
}

/// Once past the written digits, nothing is still nothing.
proof fn lemma_whole_of_nothing(digits: Seq<char>, from: int, point: int)
    requires
        digits.len() <= from <= point,
        whole_part(digits, from) == 0,
    ensures
        whole_part(digits, point) == 0,
    decreases point - from,
{
    if from < point {
        lemma_whole_of_nothing(digits, from, point - 1);
    }
}

/// At the edge the number stays at the edge.
proof fn lemma_whole_at_edge(digits: Seq<char>, from: int, point: int)
    requires
        0 <= from <= point,
        whole_part(digits, from) == EDGE,
        forall|k: int| 0 <= k < digits.len() ==> is_digit(#[trigger] digits[k]),
    ensures
        whole_part(digits, point) == EDGE,
    decreases point - from,
{
    if from < point {
        lemma_whole_at_edge(digits, from, point - 1);
        if point - 1 < digits.len() {
            assert(is_digit(digits[point - 1]));
        }
    }
}

fn whole_number(digits: &[char], point: i128) -> (v: i128)
    requires
        forall|k: int| 0 <= k < digits@.len() ==> is_digit(#[trigger] digits@[k]),
        point <= 0x1_0000_0000_0000_0000_0000,
    ensures
        v == whole_part(digits@, point as int),
        0 <= v <= EDGE,
{
    if point <= 0 {
        return 0;
    }
    let mut v: i128 = 0;
    let mut i: i128 = 0;
    while i < point
        invariant
            0 <= i <= point,
            point <= 0x1_0000_0000_0000_0000_0000,
            v == whole_part(digits@, i as int),
            0 <= v < EDGE,
            forall|k: int| 0 <= k < digits@.len() ==> is_digit(#[trigger] digits@[k]),
        decreases point - i,
    {
        if v == 0 && i >= digits.len() as i128 {
            proof {
                lemma_whole_of_nothing(digits@, i as int, point as int);
            }
            return 0;
        }
        v = v * 10 + digit_of(digits, i) as i128;
        i += 1;
        if v >= EDGE {
            proof {
                lemma_whole_at_edge(digits@, i as int, point as int);
            }
            return EDGE;
        }
    }
    v
}

fn fraction_number(digits: &[char], point: i128) -> (v: u128)
    requires
        forall|k: int| 0 <= k < digits@.len() ==> is_digit(#[trigger] digits@[k]),
        -0x1_0000_0000_0000_0000_0000 <= point <= 0x1_0000_0000_0000_0000_0000,
    ensures
        v == fraction_part(digits@, point as int, 18),
        v < 1_000_000_000_000_000_000,
{
    let mut v: u128 = 0;
    let mut i: u32 = 0;
    let ghost mut bound: int = 1;
    while i < 18
        invariant
            0 <= i <= 18,
            v == fraction_part(digits@, point as int, i as int),
            v < bound,
            bound == crate::text::ten_to(i as nat),
            i < 18 ==> bound <= 100_000_000_000_000_000,
            -0x1_0000_0000_0000_0000_0000 <= point <= 0x1_0000_0000_0000_0000_0000,
            forall|k: int| 0 <= k < digits@.len() ==> is_digit(#[trigger] digits@[k]),
        decreases 18 - i,
    {
        v = v * 10 + digit_of(digits, point + i as i128) as u128;
        i += 1;
        proof {
            bound = bound * 10;
            assert(bound <= 100_000_000_000_000_000 || i == 18) by {
                reveal_with_fuel(crate::text::ten_to, 19);
            }
        }
    }
    proof {
        reveal_with_fuel(crate::text::ten_to, 19);
    }
    v
}

/// The distance from zero of a plain number, in grains.
fn plain_size(s: &[char]) -> (out: Option<i128>)
    ensures
        match out {
            Some(v) => plain_number(s@, false) matches Some(w) && magnitude(w.digits, w.point) == v
                && 0 <= v <= EDGE * 7140,
            None => plain_number(s@, false) is None,
        },
{
    let a: usize = digits_end(s, 0);
    let dotted = a < s.len() && s[a] == '.';
    let b: usize = if dotted {
        digits_end(s, a + 1)
    } else {
        a
    };
    let mut digits = crate::text::sub_vec(s, 0, a);
    if dotted {
        crate::text::push_all(&mut digits, vstd::slice::slice_subrange(s, a + 1, b));
    }
    proof {
        let want = s@.take(a as int) + if dotted {
            s@.subrange(a + 1, b as int)
        } else {
            Seq::empty()
        };
        assert(digits@ =~= want);
        assert forall|k: int| 0 <= k < digits@.len() implies is_digit(#[trigger] digits@[k]) by {
            if k < a {
                assert(digits@[k] == s@[k]);
            } else {
                assert(digits@[k] == s@[k + 1]);
            }
        }
    }
    if digits.len() == 0 {
        return None;
    }
    let shift: i64 = if b == s.len() {
        0
    } else if s[b] == 'e' || s[b] == 'E' {
        let tail = crate::text::sub_vec(s, b + 1, s.len());
        proof {
            assert(tail@ =~= s@.skip(b + 1));
        }
        match parse_exponent(&tail) {
            Some(e) => e,
            None => return None,
        }
    } else {
        return None;
    };
    let point: i128 = a as i128 + shift as i128;
    let whole: i128 = whole_number(&digits, point);
    if whole >= EDGE {
        return Some(EDGE * GRAIN);
    }
    let part: u128 = fraction_number(&digits, point);
    let fraction: u128 = part * 7140 / 1_000_000_000_000_000_000;
    Some(whole * 7140 + fraction as i128)
}

/// The sign of a number does not change its size.
proof fn lemma_sign_apart(s: Seq<char>, negative: bool)
    ensures
        plain_number(s, negative) is Some <==> plain_number(s, false) is Some,
        plain_number(s, negative) matches Some(w) ==> plain_number(s, false) == Some(
            Written { negative: false, ..w },
        ),
{
}

/// The coordinate a text spells, in grains.
pub fn parse_coordinate(s: &str) -> (out: Option<i128>)
    ensures
        match out {
            Some(v) => coordinate(s@) == Some(v as int) && -EDGE * 7140 <= v <= EDGE * 7140,
            None => coordinate(s@) is None,
        },
{
    let chars = chars_of(s);
    let signed = chars.len() > 0 && (chars[0] == '+' || chars[0] == '-');
    let negative = signed && chars[0] == '-';
    let start: usize = if signed {
        1
    } else {
        0
    };
    let rest = crate::text::sub_vec(&chars, start, chars.len());
    proof {
        if signed {
            assert(rest@ =~= s@.skip(1));
        } else {
            assert(rest@ =~= s@);
        }
        lemma_sign_apart(rest@, negative);
    }
    let word = lowered(&rest);
    let size: i128 = if same_chars(&word, &chars_of("inf")) || same_chars(
        &word,
        &chars_of("infinity"),
    ) {
        EDGE * GRAIN
    } else if same_chars(&word, &chars_of("nan")) {
        0
    } else {
        match plain_size(&rest) {
            Some(v) => v,
            None => return None,
        }
    };
    Some(
        if negative {
            -size
        } else {
            size
        },
    )
}

// ---- laws ----

proof fn lemma_digits_all(s: Seq<char>, from: int)
    requires
        0 <= from <= s.len(),
        forall|k: int| from <= k < s.len() ==> is_digit(#[trigger] s[k]),
    ensures
        digits_upto(s, from) == s.len(),
    decreases s.len() - from,
{
    if from < s.len() {
        assert(is_digit(s[from]));
        lemma_digits_all(s, from + 1);
    }
}

/// Short of the edge, the part before the point is the number its digits spell.
proof fn lemma_whole_is_value(s: Seq<char>, n: int)
    requires
        0 <= n <= s.len(),
        forall|k: int| 0 <= k < s.len() ==> is_digit(#[trigger] s[k]),
        digits_value(s) <= EDGE,
    ensures
        whole_part(s, n) == digits_value(s.take(n)),
    decreases n,
{
    if n > 0 {
        lemma_whole_is_value(s, n - 1);
        assert(s.take(n).drop_last() =~= s.take(n - 1));
        assert(is_digit(s[n - 1]));
        crate::text::lemma_digits_value_grows(s, n);
    }
}

proof fn lemma_no_fraction(s: Seq<char>, n: int)
    requires
        0 <= n,
    ensures
        fraction_part(s, s.len() as int, n) == 0,
    decreases n,
{
    if n > 0 {
        lemma_no_fraction(s, n - 1);
    }
}

/// Whole units written out and read back are the same units.
pub proof fn law_whole_units_round_trip(n: int)
    requires
        -EDGE <= n <= EDGE,
    ensures
        coordinate(crate::text::signed_decimal(n)) == Some(n * 7140),
{
    let m: nat = if n < 0 {
        (-n) as nat
    } else {
        n as nat
    };
    let d = crate::text::decimal(m);
    let s = crate::text::signed_decimal(n);
    crate::text::law_decimal_round_trips(m);
    assert(is_digit(d[0]));
    if n < 0 {
        assert(s.skip(1) =~= d);
    }
    lemma_digits_all(d, 0);
    assert(d.take(d.len() as int) =~= d);
    assert(d.take(d.len() as int) + Seq::<char>::empty() =~= d);
    lemma_whole_is_value(d, d.len() as int);
    lemma_no_fraction(d, 18);
    reveal_strlit("inf");
    reveal_strlit("infinity");
    reveal_strlit("nan");
    assert(lower(d)[0] == d[0]);
    assert("inf"@[0] == 'i' && "infinity"@[0] == 'i' && "nan"@[0] == 'n');
    assert(plain_number(d, n < 0) == Some(Written { negative: n < 0, digits: d, point: d.len() as int }));
}

proof fn lemma_whole_range(digits: Seq<char>, point: int)
    requires
        forall|k: int| 0 <= k < digits.len() ==> is_digit(#[trigger] digits[k]),
    ensures
        0 <= whole_part(digits, point) <= EDGE,
    decreases point,
{
    if point > 0 {
        lemma_whole_range(digits, point - 1);
        if point - 1 < digits.len() {
            assert(is_digit(digits[point - 1]));
        }
    }
}

proof fn lemma_fraction_range(digits: Seq<char>, point: int, n: nat)
    requires
        forall|k: int| 0 <= k < digits.len() ==> is_digit(#[trigger] digits[k]),
    ensures
        0 <= fraction_part(digits, point, n as int) < crate::text::ten_to(n),
    decreases n,
{
    if n > 0 {
        lemma_fraction_range(digits, point, (n - 1) as nat);
        let i = point + n - 1;
        if 0 <= i < digits.len() {
            assert(is_digit(digits[i]));
        }
    }
}

proof fn lemma_digits_upto(s: Seq<char>, from: int)
    requires
        0 <= from <= s.len(),
    ensures
        from <= digits_upto(s, from) <= s.len(),
        forall|k: int| from <= k < digits_upto(s, from) ==> is_digit(#[trigger] s[k]),
    decreases s.len() - from,
{
    if from < s.len() && is_digit(s[from]) {
        lemma_digits_upto(s, from + 1);
    }
}

/// No text spells a coordinate past the edge.
pub proof fn law_coordinates_are_on_the_map(s: Seq<char>)
    ensures
        coordinate(s) matches Some(v) ==> -EDGE * 7140 <= v <= EDGE * 7140,
{
    let signed = s.len() > 0 && (s[0] == '+' || s[0] == '-');
    let rest = if signed {
        s.skip(1)
    } else {
        s
    };
    let a = digits_upto(rest, 0);
    lemma_digits_upto(rest, 0);
    let dotted = a < rest.len() && rest[a] == '.';
    if dotted {
        lemma_digits_upto(rest, a + 1);
    }
    if let Some(w) = plain_number(rest, signed && s[0] == '-') {
        let d = w.digits;
        assert forall|k: int| 0 <= k < d.len() implies is_digit(#[trigger] d[k]) by {
            if k < a {
                assert(d[k] == rest[k]);
            } else {
                assert(d[k] == rest[k + 1]);
            }
        }
        lemma_whole_range(d, w.point);
        lemma_fraction_range(d, w.point, 18);
        reveal_with_fuel(crate::text::ten_to, 19);
    }
}

/// A coordinate rounded to whole units is within half a unit of where it was,
/// if there are 64 bits for the units.
pub proof fn law_units_round(g: int)
    ensures
        i64::MIN <= nearest_unit(g) <= i64::MAX ==> -3570 <= units(g) * 7140 - g <= 3570,
        units(units(g) * 7140) == units(g),
{
}

proof fn lemma_whole_of_start(a: Seq<char>, b: Seq<char>, n: int)
    requires
        0 <= n <= a.len(),
    ensures
        whole_part(a + b, n) == whole_part(a, n),
    decreases n,
{
    if n > 0 {
        lemma_whole_of_start(a, b, n - 1);
    }
}

proof fn lemma_fraction_of_end(a: Seq<char>, b: Seq<char>, n: int)
    requires
        0 <= n <= b.len(),
    ensures
        fraction_part(a + b, a.len() as int, n) == digits_value(b.take(n)),
    decreases n,
{
    if n > 0 {
        lemma_fraction_of_end(a, b, n - 1);
        assert(b.take(n).drop_last() =~= b.take(n - 1));
        assert((a + b)[a.len() + n - 1] == b[n - 1]);
    }
}

proof fn lemma_fraction_padded(s: Seq<char>, point: int, n: int, more: nat)
    requires
        0 <= n,
        point + n >= s.len(),
        point >= 0,
    ensures
        fraction_part(s, point, n + more) == fraction_part(s, point, n) * crate::text::ten_to(more),
    decreases more,
{
    if more > 0 {
        let less = (more - 1) as nat;
        lemma_fraction_padded(s, point, n, less);
        let f = fraction_part(s, point, n);
        let t = crate::text::ten_to(less);
        assert((f * t) * 10 == f * (10 * t)) by (nonlinear_arith);
        assert(digit_at(s, point + n + more - 1) == 0);
    } else {
        let f = fraction_part(s, point, n);
        assert(f * 1 == f) by (nonlinear_arith);
        assert(crate::text::ten_to(more) == 1);
    }
}

proof fn lemma_ten_to_sum(a: nat, b: nat)
    ensures
        crate::text::ten_to(a + b) == crate::text::ten_to(a) * crate::text::ten_to(b),
        crate::text::ten_to(a) > 0,
    decreases a,
{
    if a > 0 {
        let less = (a - 1) as nat;
        lemma_ten_to_sum(less, b);
        let x = crate::text::ten_to(less);
        let y = crate::text::ten_to(b);
        assert(10 * (x * y) == (10 * x) * y) by (nonlinear_arith);
        assert((a + b - 1) as nat == less + b);
    } else {
        let y = crate::text::ten_to(b);
        assert(1 * y == y) by (nonlinear_arith);
    }
}

proof fn lemma_digits_until(s: Seq<char>, from: int, to: int)
    requires
        0 <= from <= to < s.len(),
        forall|k: int| from <= k < to ==> is_digit(#[trigger] s[k]),
        !is_digit(s[to]),
    ensures
        digits_upto(s, from) == to,
    decreases to - from,
{
    if from < to {
        assert(is_digit(s[from]));
        lemma_digits_until(s, from + 1, to);
    }
}

/// A coordinate with a point is what its digits say, to the grain: the units before
/// the point, and of the part after it as many whole grains as it holds. A minus sign
/// in front puts it as far on the other side.
pub proof fn law_a_fraction_is_read(w: Seq<char>, f: Seq<char>)
    requires
        crate::text::all_digits(w),
        crate::text::all_digits(f),
        f.len() <= 18,
        digits_value(w) < EDGE,
    ensures
        ({
            let size = digits_value(w) * 7140 + (digits_value(f) * 7140) / crate::text::ten_to(
                f.len(),
            ) as int;
            &&& coordinate(w + seq!['.'] + f) == Some(size)
            &&& coordinate(seq!['-'] + (w + seq!['.'] + f)) == Some(-size)
        }),
{
    let s = w + seq!['.'] + f;
    let a = w.len() as int;
    let d = w + f;
    assert forall|k: int| 0 <= k < a implies is_digit(#[trigger] s[k]) by {
        assert(s[k] == w[k]);
    }
    assert forall|k: int| a < k < s.len() implies is_digit(#[trigger] s[k]) by {
        assert(s[k] == f[k - a - 1]);
    }
    assert(s[a] == '.');
    lemma_digits_until(s, 0, a);
    lemma_digits_all(s, a + 1);
    assert(s.take(a) =~= w);
    assert(s.subrange(a + 1, s.len() as int) =~= f);
    reveal_strlit("inf");
    reveal_strlit("infinity");
    reveal_strlit("nan");
    assert(is_digit(w[0]) && s[0] == w[0] && lower(s)[0] == s[0]);
    assert("inf"@[0] == 'i' && "infinity"@[0] == 'i' && "nan"@[0] == 'n');
    assert((seq!['-'] + s).skip(1) =~= s);
    lemma_whole_of_start(w, f, a);
    lemma_whole_is_value(w, a);
    assert(w.take(a) =~= w);
    let k = f.len();
    let more = (18 - k) as nat;
    lemma_fraction_of_end(w, f, k as int);
    assert(f.take(k as int) =~= f);
    lemma_fraction_padded(d, a, k as int, more);
    lemma_ten_to_sum(k, more);
    lemma_ten_to_sum(more, 0);
    reveal_with_fuel(crate::text::ten_to, 19);
    assert(crate::text::ten_to(18) == 1_000_000_000_000_000_000);
    let v = digits_value(f);
    crate::text::lemma_digits_value_nonneg(f);
    let t = crate::text::ten_to(more) as int;
    let u = crate::text::ten_to(k) as int;
    assert((v * t) * 7140 == (v * 7140) * t) by (nonlinear_arith);
    vstd::arithmetic::div_mod::lemma_div_by_multiple(v * 7140, t);
    assert(0 <= (v * 7140) * t) by (nonlinear_arith)
        requires
            0 <= v,
            0 < t,
    ;
    vstd::arithmetic::div_mod::lemma_div_denominator((v * 7140) * t, t, u);
    assert(t * u == u * t) by (nonlinear_arith);
    assert(plain_number(s, false) == Some(Written { negative: false, digits: d, point: a }));
    lemma_sign_apart(s, true);
    assert(plain_number(s, true) == Some(Written { negative: true, digits: d, point: a }));
}

} // verus!

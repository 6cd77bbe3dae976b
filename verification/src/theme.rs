//! The themes: which there are, how one is picked by name, and how they cycle.
//!
//! Every widget reads its colors from the active theme, so a swap re-skins
//! everything. The boards themselves are color-agnostic: they name note colors
//! abstractly, and [`note_color`] turns a name into what the default palette
//! draws it as.

use crate::model::Color;
use crate::text::{chars_of, lowered, lower, occurs, occurs_in};
use vstd::prelude::*;

verus! {

/// How many themes there are.
pub const THEME_COUNT: usize = 5;

/// A theme: its name, and its place among the themes.
#[derive(Debug, Clone, Copy, PartialEq, Eq)]
pub struct Theme {
    pub name: &'static str,
    pub index: usize,
}

/// The name of a theme. The first is the default.
pub open spec fn theme_name(i: int) -> Seq<char> {
    if i == 0 {
        "Catppuccin Mocha"@
    } else if i == 1 {
        "Tokyo Night"@
    } else if i == 2 {
        "Gruvbox"@
    } else if i == 3 {
        "Nord"@
    } else {
        "Solarized Light"@
    }
}

/// The theme at an index.
pub fn theme_at(index: usize) -> (t: Theme)
    requires
        index < THEME_COUNT,
    ensures
        t.index == index,
        t.name@ == theme_name(index as int),
{
    let name: &'static str = if index == 0 {
        "Catppuccin Mocha"
    } else if index == 1 {
        "Tokyo Night"
    } else if index == 2 {
        "Gruvbox"
    } else if index == 3 {
        "Nord"
    } else {
        "Solarized Light"
    };
    Theme { name, index }
}

/// Whether a theme answers to `wanted`: its name holds it, whatever the case.
pub open spec fn answers_to(i: int, wanted: Seq<char>) -> bool {
    occurs(lower(wanted), lower(theme_name(i)))
}

/// The first theme from `i` on that answers to `wanted`.
pub open spec fn theme_named(wanted: Seq<char>, i: int) -> Option<int>
    decreases 5 - i,
{
    if i >= 5 {
        None
    } else if answers_to(i, wanted) {
        Some(i)
    } else {
        theme_named(wanted, i + 1)
    }
}

/// The theme with a name, matched loosely: any part of the name will do, in any
/// case. The first that matches wins.
pub fn index_by_name(name: &str) -> (out: Option<usize>)
    ensures
        match out {
            Some(i) => i < THEME_COUNT && theme_named(name@, 0) == Some(i as int),
            None => theme_named(name@, 0) is None,
        },
{
    let wanted = lowered(&chars_of(name));
    let mut i: usize = 0;
    while i < THEME_COUNT
        invariant
            i <= THEME_COUNT,
            wanted@ == lower(name@),
            theme_named(name@, 0) == theme_named(name@, i as int),
        decreases THEME_COUNT - i,
    {
        let held = lowered(&chars_of(theme_at(i).name));
        if occurs_in(&wanted, &held) {
            return Some(i);
        }
        i += 1;
    }
    None
}

/// The theme after this one, or before it; the ends meet.
pub open spec fn next_theme(i: int, forward: bool) -> int {
    if forward {
        (i + 1) % 5
    } else {
        (i + 4) % 5
    }
}

/// Cycling forward and back again changes nothing.
pub proof fn law_themes_cycle(i: int)
    requires
        0 <= i < 5,
    ensures
        next_theme(next_theme(i, true), false) == i,
        next_theme(next_theme(i, false), true) == i,
        next_theme(4, true) == 0,
        next_theme(0, false) == 4,
{
}

/// A color as a screen shows it.
#[derive(Debug, Clone, Copy, PartialEq, Eq, Structural)]
pub struct Rgb {
    pub r: u8,
    pub g: u8,
    pub b: u8,
}

/// What the default palette draws a note color as.
pub open spec fn mocha(c: Color) -> Rgb {
    match c {
        Color::Yellow => Rgb { r: 0xf9, g: 0xe2, b: 0xaf },
        Color::Green => Rgb { r: 0xa6, g: 0xe3, b: 0xa1 },
        Color::Blue => Rgb { r: 0x89, g: 0xb4, b: 0xfa },
        Color::Pink => Rgb { r: 0xf5, g: 0xc2, b: 0xe7 },
        Color::Peach => Rgb { r: 0xfa, g: 0xb3, b: 0x87 },
        Color::Mauve => Rgb { r: 0xcb, g: 0xa6, b: 0xf7 },
        Color::Teal => Rgb { r: 0x94, g: 0xe2, b: 0xd5 },
        Color::Red => Rgb { r: 0xf3, g: 0x8b, b: 0xa8 },
    }
}

/// The eight note accents of the default palette.
pub fn note_color(c: Color) -> (rgb: Rgb)
    ensures
        rgb == mocha(c),
{
    match c {
        Color::Yellow => Rgb { r: 0xf9, g: 0xe2, b: 0xaf },
        Color::Green => Rgb { r: 0xa6, g: 0xe3, b: 0xa1 },
        Color::Blue => Rgb { r: 0x89, g: 0xb4, b: 0xfa },
        Color::Pink => Rgb { r: 0xf5, g: 0xc2, b: 0xe7 },
        Color::Peach => Rgb { r: 0xfa, g: 0xb3, b: 0x87 },
        Color::Mauve => Rgb { r: 0xcb, g: 0xa6, b: 0xf7 },
        Color::Teal => Rgb { r: 0x94, g: 0xe2, b: 0xd5 },
        Color::Red => Rgb { r: 0xf3, g: 0x8b, b: 0xa8 },
    }
}

/// No two note colors look the same.
pub proof fn law_note_colors_differ(a: Color, b: Color)
    requires
        a != b,
    ensures
        mocha(a) != mocha(b),
{
}

/// A theme goes by any part of its name, in any case, and the first that does is
/// taken: none before it answers, and where none is taken none answers at all.
pub proof fn law_the_first_theme_that_answers(wanted: Seq<char>, from: int)
    requires
        0 <= from <= 5,
    ensures
        match theme_named(wanted, from) {
            Some(i) => from <= i < 5 && occurs(lower(wanted), lower(theme_name(i))) && forall|k: int|
                from <= k < i ==> !#[trigger] answers_to(k, wanted),
            None => forall|k: int| from <= k < 5 ==> !#[trigger] answers_to(k, wanted),
        },
    decreases 5 - from,
{
    if from < 5 && !answers_to(from, wanted) {
        law_the_first_theme_that_answers(wanted, from + 1);
    }
}

/// Each step goes to another theme: the one after, or the one before, round the ends.
pub proof fn law_a_theme_step_is_one_theme(i: int)
    requires
        0 <= i < 5,
    ensures
        next_theme(i, true) != i && 0 <= next_theme(i, true) < 5,
        next_theme(i, false) != i && 0 <= next_theme(i, false) < 5,
        i < 4 ==> next_theme(i, true) == i + 1,
        i > 0 ==> next_theme(i, false) == i - 1,
        next_theme(4, true) == 0 && next_theme(0, false) == 4,
{
}

} // verus!

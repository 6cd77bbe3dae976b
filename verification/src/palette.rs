//! The colors of each theme: what every part of the screen is painted in.

use crate::model::Color;
use crate::paint::Tint;
use crate::theme::{mocha, Rgb, THEME_COUNT};
use vstd::prelude::*;

verus! {

/// Catppuccin Mocha, the default.
pub const MOCHA: [u32; 18] = [
    0xcdd6f4, 0xa6adc8, 0x6c7086, 0x7f849c, 0x313244, 0x45475a, 0xb4befe, 0x181825, 0x1e1e2e,
    0x11111b, 0xf9e2af, 0xa6e3a1, 0x89b4fa, 0xf5c2e7, 0xfab387, 0xcba6f7, 0x94e2d5, 0xf38ba8,
];

pub const TOKYO_NIGHT: [u32; 18] = [
    0xc0caf5, 0xa9b1d6, 0x565f89, 0x737aa2, 0x292e42, 0x3b4261, 0x7aa2f7, 0x16161e, 0x1a1b26,
    0x16161e, 0xe0af68, 0x9ece6a, 0x7dcfff, 0xd19ad8, 0xff9e64, 0xbb9af7, 0x73daca, 0xf7768e,
];

pub const GRUVBOX: [u32; 18] = [
    0xebdbb2, 0xd5c4a1, 0x928374, 0xa89984, 0x3c3836, 0x504945, 0xfe8019, 0x1d2021, 0x282828,
    0x1d2021, 0xfabd2f, 0xb8bb26, 0x83a598, 0xd3869b, 0xe78a4e, 0xb16286, 0x8ec07c, 0xfb4934,
];

pub const NORD: [u32; 18] = [
    0xeceff4, 0xd8dee9, 0x616e88, 0x7b88a1, 0x3b4252, 0x434c5e, 0x88c0d0, 0x242933, 0x2e3440,
    0x242933, 0xebcb8b, 0xa3be8c, 0x81a1c1, 0xd8a9c4, 0xd08770, 0xb48ead, 0x8fbcbb, 0xbf616a,
];

/// The light theme, which keeps the renderer honest about not assuming a dark
/// background.
pub const SOLARIZED_LIGHT: [u32; 18] = [
    0x586e75, 0x657b83, 0x93a1a1, 0x839496, 0xeee8d5, 0xddd6c1, 0x268bd2, 0xeee8d5, 0xfdf6e3,
    0x073642, 0xb58900, 0x859900, 0x6c9fd8, 0xd33682, 0xcb4b16, 0x6c71c4, 0x2aa198, 0xdc322f,
];

/// The colors of a theme.
pub open spec fn shades(theme: int) -> [u32; 18] {
    if theme == 0 {
        MOCHA
    } else if theme == 1 {
        TOKYO_NIGHT
    } else if theme == 2 {
        GRUVBOX
    } else if theme == 3 {
        NORD
    } else {
        SOLARIZED_LIGHT
    }
}

/// The place of a part among a theme's colors.
pub open spec fn slot(tint: Tint) -> int {
    match tint {
        Tint::Text => 0,
        Tint::Subtext => 1,
        Tint::Overlay0 => 2,
        Tint::Overlay1 => 3,
        Tint::Surface0 => 4,
        Tint::Surface1 => 5,
        Tint::Accent => 6,
        Tint::Mantle => 7,
        Tint::Base => 8,
        Tint::NoteFg => 9,
        Tint::Note(c) => 10 + c.rank(),
    }
}

/// A color written as `0xRRGGBB`.
pub open spec fn rgb_of(code: u32) -> Rgb {
    Rgb {
        r: (code / 0x1_0000 % 0x100) as u8,
        g: (code / 0x100 % 0x100) as u8,
        b: (code % 0x100) as u8,
    }
}

fn slot_of(tint: Tint) -> (i: usize)
    ensures
        i == slot(tint),
        i < 18,
{
    match tint {
        Tint::Text => 0,
        Tint::Subtext => 1,
        Tint::Overlay0 => 2,
        Tint::Overlay1 => 3,
        Tint::Surface0 => 4,
        Tint::Surface1 => 5,
        Tint::Accent => 6,
        Tint::Mantle => 7,
        Tint::Base => 8,
        Tint::NoteFg => 9,
        Tint::Note(c) => 10 + c.index(),
    }
}

/// What a theme paints a part in.
pub fn shade(theme: usize, tint: Tint) -> (rgb: Rgb)
    requires
        theme < THEME_COUNT,
    ensures
        rgb == rgb_of(shades(theme as int)[slot(tint)]),
{
    let i: usize = slot_of(tint);
    let table: [u32; 18] = if theme == 0 {
        MOCHA
    } else if theme == 1 {
        TOKYO_NIGHT
    } else if theme == 2 {
        GRUVBOX
    } else if theme == 3 {
        NORD
    } else {
        SOLARIZED_LIGHT
    };
    let code: u32 = table[i];
    Rgb {
        r: (code / 0x1_0000 % 0x100) as u8,
        g: (code / 0x100 % 0x100) as u8,
        b: (code % 0x100) as u8,
    }
}

/// The default theme draws a note color as [`crate::theme::note_color`] says.
pub proof fn law_the_default_theme_draws_note_colors(c: Color)
    ensures
        rgb_of(shades(0)[slot(Tint::Note(c))]) == mocha(c),
{
}

} // verus!

//! Playdate Lua formatting helpers: the Lua names of colours, line caps and
//! dither patterns, and Lua numbers.
use vstd::prelude::*;

use crate::text::{int_decimal, int_to_string, str_eq};

verus! {

/// The Lua colour constant for a colour name.
pub open spec fn spec_lua_color(color: Seq<char>) -> Seq<char> {
    if color == "white"@ {
        "gfx.kColorWhite"@
    } else if color == "clear"@ {
        "gfx.kColorClear"@
    } else {
        "gfx.kColorBlack"@
    }
}

/// The Lua colour constant for a colour drawn with a blend mode.
pub open spec fn spec_lua_color_with_blend(color: Seq<char>, blend: Seq<char>) -> Seq<char> {
    if blend == "xor"@ {
        "gfx.kColorXOR"@
    } else {
        spec_lua_color(color)
    }
}

/// The Lua line cap constant for a cap name.
pub open spec fn spec_lua_cap_style(cap: Seq<char>) -> Seq<char> {
    if cap == "round"@ {
        "gfx.kLineCapStyleRound"@
    } else if cap == "square"@ {
        "gfx.kLineCapStyleSquare"@
    } else {
        "gfx.kLineCapStyleButt"@
    }
}

/// The Lua dither type constant for a pattern name; `None` for "none" and
/// for names that are not dither patterns.
pub open spec fn spec_lua_dither_pattern(pattern: Seq<char>) -> Option<Seq<char>> {
    if pattern == "diagonal_line"@ {
        Some("gfx.image.kDitherTypeDiagonalLine"@)
    } else if pattern == "vertical_line"@ {
        Some("gfx.image.kDitherTypeVerticalLine"@)
    } else if pattern == "horizontal_line"@ {
        Some("gfx.image.kDitherTypeHorizontalLine"@)
    } else if pattern == "screen"@ {
        Some("gfx.image.kDitherTypeScreen"@)
    } else if pattern == "bayer_2x2"@ {
        Some("gfx.image.kDitherTypeBayer2x2"@)
    } else if pattern == "bayer_4x4"@ {
        Some("gfx.image.kDitherTypeBayer4x4"@)
    } else if pattern == "bayer_8x8"@ {
        Some("gfx.image.kDitherTypeBayer8x8"@)
    } else if pattern == "floyd_steinberg"@ {
        Some("gfx.image.kDitherTypeFloydSteinberg"@)
    } else if pattern == "burkes"@ {
        Some("gfx.image.kDitherTypeBurkes"@)
    } else if pattern == "atkinson"@ {
        Some("gfx.image.kDitherTypeAtkinson"@)
    } else {
        None
    }
}

/// A Lua number literal for a whole number.
pub fn lua_number(value: i64) -> (text: String)
    ensures
        text@ == int_decimal(value as int),
{
    int_to_string(value)
}

pub fn lua_color(color: &str) -> (name: &'static str)
    ensures
        name@ == spec_lua_color(color@),
{
    if str_eq(color, "white") {
        "gfx.kColorWhite"
    } else if str_eq(color, "clear") {
        "gfx.kColorClear"
    } else {
        "gfx.kColorBlack"
    }
}

pub fn lua_color_with_blend(color: &str, blend: &str) -> (name: &'static str)
    ensures
        name@ == spec_lua_color_with_blend(color@, blend@),
{
    if str_eq(blend, "xor") {
        "gfx.kColorXOR"
    } else {
        lua_color(color)
    }
}

pub fn lua_cap_style(cap: &str) -> (name: &'static str)
    ensures
        name@ == spec_lua_cap_style(cap@),
{
    if str_eq(cap, "round") {
        "gfx.kLineCapStyleRound"
    } else if str_eq(cap, "square") {
        "gfx.kLineCapStyleSquare"
    } else {
        "gfx.kLineCapStyleButt"
    }
}

pub fn lua_dither_pattern(pattern: &str) -> (name: Option<&'static str>)
    ensures
        match name {
            Some(n) => spec_lua_dither_pattern(pattern@) == Some(n@),
            None => spec_lua_dither_pattern(pattern@) is None,
        },
{
    if str_eq(pattern, "diagonal_line") {
        Some("gfx.image.kDitherTypeDiagonalLine")
    } else if str_eq(pattern, "vertical_line") {
        Some("gfx.image.kDitherTypeVerticalLine")
    } else if str_eq(pattern, "horizontal_line") {
        Some("gfx.image.kDitherTypeHorizontalLine")
    } else if str_eq(pattern, "screen") {
        Some("gfx.image.kDitherTypeScreen")
    } else if str_eq(pattern, "bayer_2x2") {
        Some("gfx.image.kDitherTypeBayer2x2")
    } else if str_eq(pattern, "bayer_4x4") {
        Some("gfx.image.kDitherTypeBayer4x4")
    } else if str_eq(pattern, "bayer_8x8") {
        Some("gfx.image.kDitherTypeBayer8x8")
    } else if str_eq(pattern, "floyd_steinberg") {
        Some("gfx.image.kDitherTypeFloydSteinberg")
    } else if str_eq(pattern, "burkes") {
        Some("gfx.image.kDitherTypeBurkes")
    } else if str_eq(pattern, "atkinson") {
        Some("gfx.image.kDitherTypeAtkinson")
    } else {
        None
    }
}

} // verus!

//! Interface colors, written as `#RRGGBB` or `#RRGGBBAA` hex strings and
//! turned into the premultiplied RGBA values the GUI paints with.
use vstd::prelude::*;
use vstd::string::StringSliceAdditionalSpecFns;

verus! {

/// A color with premultiplied alpha, component by component as the GUI's
/// `Color32` stores it.
#[derive(Clone, Copy, PartialEq, Eq, Structural, Debug)]
pub struct Rgba {
    pub r: u8,
    pub g: u8,
    pub b: u8,
    pub a: u8,
}

/// Opaque black.
pub open spec fn black() -> Rgba {
    Rgba { r: 0, g: 0, b: 0, a: 255 }
}

/// `v * a / 255`, rounded, in the fixed-point form the GUI computes it.
pub open spec fn mul_frac_round(v: u8, a: u8) -> u8 {
    let p = v * a + 128;
    ((p + p / 256) / 256) as u8
}

/// A color given with separate alpha, premultiplied.
pub open spec fn premultiplied(r: u8, g: u8, b: u8, a: u8) -> Rgba {
    if a == 0 {
        Rgba { r: 0, g: 0, b: 0, a: 0 }
    } else if a == 255 {
        Rgba { r: r, g: g, b: b, a: 255 }
    } else {
        Rgba { r: mul_frac_round(r, a), g: mul_frac_round(g, a), b: mul_frac_round(b, a), a: a }
    }
}

/// Calls `egui::Color32::from_rgba_unmultiplied` and reads back the four
/// stored components with `to_array`.  The contract claims what ecolor's
/// source shows: alpha 0 gives transparent black, alpha 255 keeps the color
/// components, and any other alpha scales each component by `mul_frac_round`.
#[verifier::external_body]
fn from_rgba_unmultiplied(r: u8, g: u8, b: u8, a: u8) -> (color: Rgba)
    ensures
        color == premultiplied(r, g, b, a),
{
    let [r, g, b, a] = egui::Color32::from_rgba_unmultiplied(r, g, b, a).to_array();
    Rgba { r, g, b, a }
}

/// The value of a hex digit byte.
pub open spec fn hex_digit_value(c: u8) -> Option<u8> {
    if 48 <= c <= 57 {
        Some((c - 48) as u8)
    } else if 97 <= c <= 102 {
        Some((c - 87) as u8)
    } else if 65 <= c <= 70 {
        Some((c - 55) as u8)
    } else {
        None
    }
}

/// The byte that two bytes spell in hexadecimal, read as `u8::from_str_radix`
/// with radix 16 reads them: two hex digits, or a `+` sign and one hex digit.
pub open spec fn hex_pair(x: u8, y: u8) -> Option<u8> {
    if x == 43 {
        hex_digit_value(y)
    } else {
        match (hex_digit_value(x), hex_digit_value(y)) {
            (Some(h), Some(l)) => Some((h * 16 + l) as u8),
            _ => None,
        }
    }
}

/// The byte spelled at `bytes[i..i + 2]`, or `fallback`.
pub open spec fn pair_or(bytes: Seq<u8>, i: int, fallback: u8) -> u8 {
    match hex_pair(bytes[i], bytes[i + 1]) {
        Some(v) => v,
        None => fallback,
    }
}

/// Where the digits of a hex color start: after a leading `#`, if any.
pub open spec fn digits_start(bytes: Seq<u8>) -> int {
    if bytes.len() > 0 && bytes[0] == 35 {
        1
    } else {
        0
    }
}

/// The color that the UTF-8 bytes of a hex string name: six digits give an
/// opaque color and eight a color with alpha, a pair that is no hex number
/// counting as 0 (255 for alpha); any other length gives opaque black.
pub open spec fn hex_color(bytes: Seq<u8>) -> Rgba {
    let s = digits_start(bytes);
    let n = bytes.len() - s;
    if n == 6 {
        Rgba { r: pair_or(bytes, s, 0), g: pair_or(bytes, s + 2, 0), b: pair_or(bytes, s + 4, 0), a: 255 }
    } else if n == 8 {
        premultiplied(pair_or(bytes, s, 0), pair_or(bytes, s + 2, 0), pair_or(bytes, s + 4, 0), pair_or(bytes, s + 6, 255))
    } else {
        black()
    }
}

/// Whether the digit pairs of a hex string start on character boundaries,
/// so that they can be cut out of it.
pub open spec fn pairs_cut_cleanly(bytes: Seq<u8>) -> bool {
    let s = digits_start(bytes);
    let n = bytes.len() - s;
    &&& (n == 6 || n == 8) ==> vstd::utf8::is_char_boundary(bytes, s + 2) && vstd::utf8::is_char_boundary(bytes, s + 4)
    &&& n == 8 ==> vstd::utf8::is_char_boundary(bytes, s + 6)
}

fn hex_digit(c: u8) -> (d: Option<u8>)
    ensures
        d == hex_digit_value(c),
{
    if 48 <= c && c <= 57 {
        Some(c - 48)
    } else if 97 <= c && c <= 102 {
        Some(c - 87)
    } else if 65 <= c && c <= 70 {
        Some(c - 55)
    } else {
        None
    }
}

fn parse_pair(bytes: &[u8], i: usize, fallback: u8) -> (v: u8)
    requires
        i + 1 < bytes@.len(),
    ensures
        v == pair_or(bytes@, i as int, fallback),
{
    let x = bytes[i];
    let y = bytes[i + 1];
    let parsed = if x == 43 {
        hex_digit(y)
    } else {
        match (hex_digit(x), hex_digit(y)) {
            (Some(h), Some(l)) => Some(h * 16 + l),
            _ => None,
        }
    };
    match parsed {
        Some(v) => v,
        None => fallback,
    }
}

/// Reads a `#RRGGBB` or `#RRGGBBAA` color; the `#` may be left out.
pub fn parse_hex_color(hex: &str) -> (color: Rgba)
    requires
        pairs_cut_cleanly(hex.spec_bytes()),
    ensures
        color == hex_color(hex.spec_bytes()),
{
    let bytes = hex.as_bytes();
    let start: usize = if bytes.len() > 0 && bytes[0] == 35 {
        1
    } else {
        0
    };
    let n = bytes.len() - start;
    if n == 6 {
        let r = parse_pair(bytes, start, 0);
        let g = parse_pair(bytes, start + 2, 0);
        let b = parse_pair(bytes, start + 4, 0);
        Rgba { r, g, b, a: 255 }
    } else if n == 8 {
        let r = parse_pair(bytes, start, 0);
        let g = parse_pair(bytes, start + 2, 0);
        let b = parse_pair(bytes, start + 4, 0);
        let a = parse_pair(bytes, start + 6, 255);
        from_rgba_unmultiplied(r, g, b, a)
    } else {
        Rgba { r: 0, g: 0, b: 0, a: 255 }
    }
}

proof fn lemma_ascii_cuts(s: &str)
    requires
        s.is_ascii(),
    ensures
        s.spec_bytes() =~= Seq::new(s@.len(), |i: int| s@[i] as u8),
        forall|i: int| 0 <= i <= s.spec_bytes().len() ==> vstd::utf8::is_char_boundary(#[trigger] s.spec_bytes(), i),
{
    broadcast use vstd::string::is_ascii_spec_bytes;
    let bytes = s.spec_bytes();
    vstd::utf8::encode_utf8_valid_utf8(s@);
    vstd::utf8::is_char_boundary_start_end_of_seq(bytes);
    assert forall|i: int| 0 <= i <= bytes.len() implies vstd::utf8::is_char_boundary(#[trigger] s.spec_bytes(), i) by {
        if i < bytes.len() {
            assert(bytes[i] == s@[i] as u8);
            vstd::utf8::is_char_boundary_iff_not_is_continuation_byte(bytes, i);
        }
    }
}

/// Hex code of the "clear" drawing color, a blue guide color.
pub const CLEAR_COLOR_HEX: &'static str = "#3C96FF";

/// Hex code of the line color of the shape being drawn.
pub const PREVIEW_STROKE_HEX: &'static str = "#FF006469";

/// Hex code of the fill color of the shape being drawn.
pub const PREVIEW_FILL_HEX: &'static str = "#FF006414";

/// Hex code of the dark squares of the checkerboard in dither icons.
pub const DITHER_SWATCH_CHECKER_DARK_HEX: &'static str = "#D7D7D7";

/// Hex code of the light squares of the checkerboard behind transparent pixels.
pub const TRANSPARENCY_CHECKER_LIGHT_HEX: &'static str = "#8e8e8e";

/// Hex code of the pale gray squares of the checkerboard behind transparent pixels.
pub const TRANSPARENCY_CHECKER_DARK_HEX: &'static str = "#dcdcdc";

/// Hex code of the diagonal lines in dither icons.
pub const DITHER_SWATCH_DIAGONAL_HEX: &'static str = "#3C96FF";

/// Hex code of the border of the selected dither icon.
pub const DITHER_SELECTED_BORDER_HEX: &'static str = "#FFB446";

/// Hex code of the major grid lines.
pub const GRID_MAJOR_HEX: &'static str = "#CDCDCD";

/// Hex code of the minor grid lines.
pub const GRID_MINOR_HEX: &'static str = "#E8E8E8";

/// Hex code of the fill of selection handles.
pub const SELECTION_FILL_HEX: &'static str = "#FF006446";

/// Hex code of the line color of selection handles and selection lines.
pub const SELECTION_STROKE_HEX: &'static str = "#FF0064";

/// Hex code of the lines of the pixel preview grid.
pub const PIXEL_GRID_STROKE_HEX: &'static str = "#96969678";

/// Hex code of the line color of guide points and guide lines.
pub const GUIDE_STROKE_HEX: &'static str = "#FF006496";

/// Hex code of the fill of guide points.
pub const GUIDE_FILL_HEX: &'static str = "#FF006419";

/// The "clear" drawing color, a blue guide color.
pub fn clear_color() -> (color: Rgba)
    ensures
        color == (Rgba { r: 60, g: 150, b: 255, a: 255 }),
{
    proof {
        reveal_strlit("#3C96FF");
        lemma_ascii_cuts(CLEAR_COLOR_HEX);
    }
    parse_hex_color(CLEAR_COLOR_HEX)
}

/// The line color of the shape being drawn.
pub fn preview_stroke() -> (color: Rgba)
    ensures
        color == premultiplied(255, 0, 100, 105),
{
    proof {
        reveal_strlit("#FF006469");
        lemma_ascii_cuts(PREVIEW_STROKE_HEX);
    }
    parse_hex_color(PREVIEW_STROKE_HEX)
}

/// The fill color of the shape being drawn.
pub fn preview_fill() -> (color: Rgba)
    ensures
        color == premultiplied(255, 0, 100, 20),
{
    proof {
        reveal_strlit("#FF006414");
        lemma_ascii_cuts(PREVIEW_FILL_HEX);
    }
    parse_hex_color(PREVIEW_FILL_HEX)
}

/// The dark squares of the checkerboard in dither icons.
pub fn dither_swatch_checker_dark() -> (color: Rgba)
    ensures
        color == (Rgba { r: 215, g: 215, b: 215, a: 255 }),
{
    proof {
        reveal_strlit("#D7D7D7");
        lemma_ascii_cuts(DITHER_SWATCH_CHECKER_DARK_HEX);
    }
    parse_hex_color(DITHER_SWATCH_CHECKER_DARK_HEX)
}

/// The light squares of the checkerboard behind transparent pixels.
pub fn transparency_checker_light() -> (color: Rgba)
    ensures
        color == (Rgba { r: 142, g: 142, b: 142, a: 255 }),
{
    proof {
        reveal_strlit("#8e8e8e");
        lemma_ascii_cuts(TRANSPARENCY_CHECKER_LIGHT_HEX);
    }
    parse_hex_color(TRANSPARENCY_CHECKER_LIGHT_HEX)
}

/// The pale gray squares of the checkerboard behind transparent pixels.
pub fn transparency_checker_dark() -> (color: Rgba)
    ensures
        color == (Rgba { r: 220, g: 220, b: 220, a: 255 }),
{
    proof {
        reveal_strlit("#dcdcdc");
        lemma_ascii_cuts(TRANSPARENCY_CHECKER_DARK_HEX);
    }
    parse_hex_color(TRANSPARENCY_CHECKER_DARK_HEX)
}

/// The diagonal lines in dither icons.
pub fn dither_swatch_diagonal() -> (color: Rgba)
    ensures
        color == (Rgba { r: 60, g: 150, b: 255, a: 255 }),
{
    proof {
        reveal_strlit("#3C96FF");
        lemma_ascii_cuts(DITHER_SWATCH_DIAGONAL_HEX);
    }
    parse_hex_color(DITHER_SWATCH_DIAGONAL_HEX)
}

/// The border of the selected dither icon.
pub fn dither_selected_border() -> (color: Rgba)
    ensures
        color == (Rgba { r: 255, g: 180, b: 70, a: 255 }),
{
    proof {
        reveal_strlit("#FFB446");
        lemma_ascii_cuts(DITHER_SELECTED_BORDER_HEX);
    }
    parse_hex_color(DITHER_SELECTED_BORDER_HEX)
}

/// The major grid lines.
pub fn grid_major() -> (color: Rgba)
    ensures
        color == (Rgba { r: 205, g: 205, b: 205, a: 255 }),
{
    proof {
        reveal_strlit("#CDCDCD");
        lemma_ascii_cuts(GRID_MAJOR_HEX);
    }
    parse_hex_color(GRID_MAJOR_HEX)
}

/// The minor grid lines.
pub fn grid_minor() -> (color: Rgba)
    ensures
        color == (Rgba { r: 232, g: 232, b: 232, a: 255 }),
{
    proof {
        reveal_strlit("#E8E8E8");
        lemma_ascii_cuts(GRID_MINOR_HEX);
    }
    parse_hex_color(GRID_MINOR_HEX)
}

/// The fill of selection handles.
pub fn selection_fill() -> (color: Rgba)
    ensures
        color == premultiplied(255, 0, 100, 70),
{
    proof {
        reveal_strlit("#FF006446");
        lemma_ascii_cuts(SELECTION_FILL_HEX);
    }
    parse_hex_color(SELECTION_FILL_HEX)
}

/// The line color of selection handles and selection lines.
pub fn selection_stroke() -> (color: Rgba)
    ensures
        color == (Rgba { r: 255, g: 0, b: 100, a: 255 }),
{
    proof {
        reveal_strlit("#FF0064");
        lemma_ascii_cuts(SELECTION_STROKE_HEX);
    }
    parse_hex_color(SELECTION_STROKE_HEX)
}

/// The lines of the pixel preview grid.
pub fn pixel_grid_stroke() -> (color: Rgba)
    ensures
        color == premultiplied(150, 150, 150, 120),
{
    proof {
        reveal_strlit("#96969678");
        lemma_ascii_cuts(PIXEL_GRID_STROKE_HEX);
    }
    parse_hex_color(PIXEL_GRID_STROKE_HEX)
}

/// The line color of guide points and guide lines.
pub fn guide_stroke() -> (color: Rgba)
    ensures
        color == premultiplied(255, 0, 100, 150),
{
    proof {
        reveal_strlit("#FF006496");
        lemma_ascii_cuts(GUIDE_STROKE_HEX);
    }
    parse_hex_color(GUIDE_STROKE_HEX)
}

/// The fill of guide points.
pub fn guide_fill() -> (color: Rgba)
    ensures
        color == premultiplied(255, 0, 100, 25),
{
    proof {
        reveal_strlit("#FF006419");
        lemma_ascii_cuts(GUIDE_FILL_HEX);
    }
    parse_hex_color(GUIDE_FILL_HEX)
}

} // verus!

//! The 1-bit rasteriser: pixels, dither masks and brush stamping.
use vstd::prelude::*;
use vstd::arithmetic::div_mod::{lemma_fundamental_div_mod, lemma_fundamental_div_mod_converse};
use vstd::arithmetic::mul::{lemma_mul_inequality, lemma_mul_strict_inequality};

use crate::model::{
    document_in_range, lemma_object_views_all, object_in_range, object_view, object_views, Document, DocumentView,
    LayerView, ObjectView, Point, VectorObject, COORD_LIMIT,
};
use crate::text::str_eq;

verus! {

/// A pixel of the 1-bit preview.
#[derive(Clone, Copy, PartialEq, Eq, Structural, Debug)]
pub enum Pixel {
    Black,
    White,
    Transparent,
}

/// The dither patterns a style may name.
#[derive(Clone, Copy, PartialEq, Eq, Structural, Debug)]
pub enum Dither {
    Solid,
    DiagonalLine,
    VerticalLine,
    HorizontalLine,
    Screen,
    Bayer2x2,
    Bayer4x4,
    Bayer8x8,
    FloydSteinberg,
    Burkes,
    Atkinson,
}

/// The dither pattern a name stands for; "none" and unknown names draw solid.
pub open spec fn spec_dither_of(name: Seq<char>) -> Dither {
    if name == "diagonal_line"@ {
        Dither::DiagonalLine
    } else if name == "vertical_line"@ {
        Dither::VerticalLine
    } else if name == "horizontal_line"@ {
        Dither::HorizontalLine
    } else if name == "screen"@ {
        Dither::Screen
    } else if name == "bayer_2x2"@ {
        Dither::Bayer2x2
    } else if name == "bayer_4x4"@ {
        Dither::Bayer4x4
    } else if name == "bayer_8x8"@ {
        Dither::Bayer8x8
    } else if name == "floyd_steinberg"@ {
        Dither::FloydSteinberg
    } else if name == "burkes"@ {
        Dither::Burkes
    } else if name == "atkinson"@ {
        Dither::Atkinson
    } else {
        Dither::Solid
    }
}

pub fn dither_of(name: &str) -> (d: Dither)
    ensures
        d == spec_dither_of(name@),
{
    if str_eq(name, "diagonal_line") {
        Dither::DiagonalLine
    } else if str_eq(name, "vertical_line") {
        Dither::VerticalLine
    } else if str_eq(name, "horizontal_line") {
        Dither::HorizontalLine
    } else if str_eq(name, "screen") {
        Dither::Screen
    } else if str_eq(name, "bayer_2x2") {
        Dither::Bayer2x2
    } else if str_eq(name, "bayer_4x4") {
        Dither::Bayer4x4
    } else if str_eq(name, "bayer_8x8") {
        Dither::Bayer8x8
    } else if str_eq(name, "floyd_steinberg") {
        Dither::FloydSteinberg
    } else if str_eq(name, "burkes") {
        Dither::Burkes
    } else if str_eq(name, "atkinson") {
        Dither::Atkinson
    } else {
        Dither::Solid
    }
}

/// The 4x4 ordered-dither threshold matrix.
pub open spec fn bayer4_table() -> Seq<Seq<u8>> {
    seq![seq![0u8, 8, 2, 10], seq![12u8, 4, 14, 6], seq![3u8, 11, 1, 9], seq![15u8, 7, 13, 5]]
}

/// The 8x8 ordered-dither threshold matrix.
pub open spec fn bayer8_table() -> Seq<Seq<u8>> {
    seq![
        seq![0u8, 48, 12, 60, 3, 51, 15, 63],
        seq![32u8, 16, 44, 28, 35, 19, 47, 31],
        seq![8u8, 56, 4, 52, 11, 59, 7, 55],
        seq![40u8, 24, 36, 20, 43, 27, 39, 23],
        seq![2u8, 50, 14, 62, 1, 49, 13, 61],
        seq![34u8, 18, 46, 30, 33, 17, 45, 29],
        seq![10u8, 58, 6, 54, 9, 57, 5, 53],
        seq![42u8, 26, 38, 22, 41, 25, 37, 21],
    ]
}

pub fn bayer_4x4_threshold(x: usize, y: usize) -> (t: u8)
    ensures
        t == bayer4_table()[(y % 4) as int][(x % 4) as int],
{
    let rows: [[u8; 4]; 4] = [[0, 8, 2, 10], [12, 4, 14, 6], [3, 11, 1, 9], [15, 7, 13, 5]];
    assert(rows@.map_values(|r: [u8; 4]| r@) =~= bayer4_table());
    let row = rows[y % 4];
    let t = row[x % 4];
    assert(rows@.map_values(|r: [u8; 4]| r@)[(y % 4) as int] == row@);
    t
}

pub fn bayer_8x8_threshold(x: usize, y: usize) -> (t: u8)
    ensures
        t == bayer8_table()[(y % 8) as int][(x % 8) as int],
{
    let rows: [[u8; 8]; 8] = [
        [0, 48, 12, 60, 3, 51, 15, 63],
        [32, 16, 44, 28, 35, 19, 47, 31],
        [8, 56, 4, 52, 11, 59, 7, 55],
        [40, 24, 36, 20, 43, 27, 39, 23],
        [2, 50, 14, 62, 1, 49, 13, 61],
        [34, 18, 46, 30, 33, 17, 45, 29],
        [10, 58, 6, 54, 9, 57, 5, 53],
        [42, 26, 38, 22, 41, 25, 37, 21],
    ];
    assert(rows@.map_values(|r: [u8; 8]| r@) =~= bayer8_table());
    let row = rows[y % 8];
    let t = row[x % 8];
    assert(rows@.map_values(|r: [u8; 8]| r@)[(y % 8) as int] == row@);
    t
}

/// Whether a dither pattern lets pixel `(x, y)` be drawn.
pub open spec fn dither_mask(d: Dither, x: usize, y: usize) -> bool {
    match d {
        Dither::Solid => true,
        Dither::DiagonalLine => (x + y) % 6 < 3,
        Dither::VerticalLine => x % 4 < 2,
        Dither::HorizontalLine => y % 4 < 2,
        Dither::Screen => (x + y) % 2 == 0,
        Dither::Bayer2x2 => x % 2 == y % 2,
        Dither::Bayer4x4 => bayer4_table()[(y % 4) as int][(x % 4) as int] < 8,
        Dither::Bayer8x8 => bayer8_table()[(y % 8) as int][(x % 8) as int] < 32,
        Dither::FloydSteinberg => (x * 5 + y * 3) % 8 < 4,
        Dither::Burkes => (x * 3 + y * 5 + x / 2) % 8 < 4,
        Dither::Atkinson => (x * 7 + y * 2 + (x ^ y)) % 8 < 4,
    }
}

pub fn dither_allows(d: Dither, x: usize, y: usize) -> (allowed: bool)
    ensures
        allowed == dither_mask(d, x, y),
{
    let wx = x as u128;
    let wy = y as u128;
    match d {
        Dither::Solid => true,
        Dither::DiagonalLine => (wx + wy) % 6 < 3,
        Dither::VerticalLine => x % 4 < 2,
        Dither::HorizontalLine => y % 4 < 2,
        Dither::Screen => (wx + wy) % 2 == 0,
        Dither::Bayer2x2 => x % 2 == y % 2,
        Dither::Bayer4x4 => bayer_4x4_threshold(x, y) < 8,
        Dither::Bayer8x8 => bayer_8x8_threshold(x, y) < 32,
        Dither::FloydSteinberg => (wx * 5 + wy * 3) % 8 < 4,
        Dither::Burkes => (wx * 3 + wy * 5 + wx / 2) % 8 < 4,
        Dither::Atkinson => (wx * 7 + wy * 2 + ((x ^ y) as u128)) % 8 < 4,
    }
}

/// Whether the named dither pattern lets pixel `(x, y)` be drawn.
pub fn dither_allows_pixel(pattern: &str, x: usize, y: usize) -> (allowed: bool)
    ensures
        allowed == dither_mask(spec_dither_of(pattern@), x, y),
{
    dither_allows(dither_of(pattern), x, y)
}

/// The pixel left by drawing `color` over `current`: clear erases, XOR
/// turns black to white and anything else to black, normal paints.
pub open spec fn spec_blend(current: Pixel, color: Pixel, xor: bool) -> Pixel {
    if color == Pixel::Transparent {
        Pixel::Transparent
    } else if xor {
        if current == Pixel::Black {
            Pixel::White
        } else {
            Pixel::Black
        }
    } else {
        color
    }
}

pub fn blend_pixel(current: Pixel, color: Pixel, xor: bool) -> (p: Pixel)
    ensures
        p == spec_blend(current, color, xor),
{
    if color == Pixel::Transparent {
        Pixel::Transparent
    } else if xor {
        if current == Pixel::Black {
            Pixel::White
        } else {
            Pixel::Black
        }
    } else {
        color
    }
}

pub fn apply_raster_blend_color(current: Pixel, color: Pixel, blend: &str) -> (p: Pixel)
    ensures
        p == spec_blend(current, color, blend@ == "xor"@),
{
    blend_pixel(current, color, str_eq(blend, "xor"))
}

/// What a stroke paints with: colour, XOR mode, brush radius and dither.
#[derive(Clone, Copy)]
pub struct Brush {
    pub color: Pixel,
    pub xor: bool,
    pub radius: i64,
    pub dither: Dither,
}

/// The largest brush radius: that of the widest `i32` line width.
pub const MAX_BRUSH_RADIUS: i64 = 1073741823;

/// The largest coordinate magnitude at which a brush may be stamped.
pub const MAX_STAMP_COORD: i64 = 1099511627776;

/// The brush radius of a line width: `floor((ceil(w) - 1) / 2)`.
pub open spec fn brush_radius_of(width: int) -> int {
    (width - 1) / 2
}

pub fn brush_radius(width: i32) -> (r: i64)
    ensures
        r == brush_radius_of(width as int),
        r <= MAX_BRUSH_RADIUS,
{
    let w = width as i64;
    if w >= 1 {
        (w - 1) / 2
    } else {
        -((2 - w) / 2)
    }
}

/// Whether offset `(dx, dy)` lies in a disc brush of radius `r`.
pub open spec fn in_disc(dx: int, dy: int, r: int) -> bool {
    &&& -r <= dx <= r
    &&& -r <= dy <= r
    &&& dx * dx + dy * dy <= r * r
}

/// Whether the brush stamped at `(x, y)` paints buffer pixel `i` (of a
/// `w`-wide buffer), counting only brush offsets `(dx, dy)` that come before
/// `(cx, cy)` in row order.
pub open spec fn stamp_hits(i: int, w: int, h: int, x: int, y: int, b: Brush, cy: int, cx: int) -> bool {
    let px = i % w;
    let py = i / w;
    &&& 0 <= i < w * h
    &&& in_disc(px - x, py - y, b.radius as int)
    &&& (py - y < cy || (py - y == cy && px - x < cx))
    &&& dither_mask(b.dither, px as usize, py as usize)
}

/// The buffer after stamping the brush at `(x, y)`, offsets before `(cx, cy)`.
pub open spec fn stamp_upto(buf: Seq<Pixel>, w: int, h: int, x: int, y: int, b: Brush, cy: int, cx: int) -> Seq<Pixel> {
    Seq::new(
        buf.len(),
        |i: int|
            if stamp_hits(i, w, h, x, y, b, cy, cx) {
                spec_blend(buf[i], b.color, b.xor)
            } else {
                buf[i]
            },
    )
}

/// The buffer after stamping the brush at `(x, y)`.
pub open spec fn stamp(buf: Seq<Pixel>, w: int, h: int, x: int, y: int, b: Brush) -> Seq<Pixel> {
    stamp_upto(buf, w, h, x, y, b, b.radius + 1, 0)
}

proof fn lemma_index_split(i: int, w: int, h: int)
    requires
        w > 0,
        0 <= i < w * h,
    ensures
        i == (i / w) * w + i % w,
        0 <= i % w < w,
        0 <= i / w < h,
{
    lemma_fundamental_div_mod(i, w);
    vstd::arithmetic::div_mod::lemma_div_pos_is_pos(i, w);
    vstd::arithmetic::div_mod::lemma_mod_pos_bound(i, w);
    let q = i / w;
    let m = i % w;
    assert(q * w == w * q) by (nonlinear_arith);
    assert(q < h) by (nonlinear_arith)
        requires
            i == q * w + m,
            0 <= m,
            i < w * h,
            w > 0,
    ;
}

proof fn lemma_index_join(px: int, py: int, w: int, h: int)
    requires
        0 <= px < w,
        0 <= py < h,
    ensures
        0 <= py * w + px < w * h,
        (py * w + px) % w == px,
        (py * w + px) / w == py,
{
    lemma_fundamental_div_mod_converse(py * w + px, w, py, px);
    assert(0 <= py * w) by (nonlinear_arith)
        requires
            0 <= py,
            0 <= w,
    ;
    assert(py * w + px < w * h) by (nonlinear_arith)
        requires
            0 <= px < w,
            0 <= py < h,
    ;
}

/// Stamps the brush at `(x, y)` into a `width` x `height` pixel buffer.
pub fn put_raster_pixel(pixels: &mut Vec<Pixel>, width: usize, height: usize, x: i64, y: i64, brush: Brush)
    requires
        old(pixels)@.len() == width * height,
        -MAX_STAMP_COORD <= x <= MAX_STAMP_COORD,
        -MAX_STAMP_COORD <= y <= MAX_STAMP_COORD,
        brush.radius <= MAX_BRUSH_RADIUS,
    ensures
        final(pixels)@ == stamp(old(pixels)@, width as int, height as int, x as int, y as int, brush),
{
    let ghost orig = pixels@;
    let r = brush.radius;
    if r < 0 {
        assert(pixels@ =~= stamp(orig, width as int, height as int, x as int, y as int, brush));
        return;
    }
    let mut dy: i64 = -r;
    while dy <= r
        invariant
            -r <= dy <= r + 1,
            r == brush.radius,
            0 <= r <= MAX_BRUSH_RADIUS,
            -MAX_STAMP_COORD <= x <= MAX_STAMP_COORD,
            -MAX_STAMP_COORD <= y <= MAX_STAMP_COORD,
            orig.len() == width * height,
            pixels@ == stamp_upto(orig, width as int, height as int, x as int, y as int, brush, dy as int, -r as int),
        decreases r + 1 - dy,
    {
        let mut dx: i64 = -r;
        while dx <= r
            invariant
                -r <= dy <= r,
                -r <= dx <= r + 1,
                r == brush.radius,
                0 <= r <= MAX_BRUSH_RADIUS,
                -MAX_STAMP_COORD <= x <= MAX_STAMP_COORD,
                -MAX_STAMP_COORD <= y <= MAX_STAMP_COORD,
                orig.len() == width * height,
                pixels@ == stamp_upto(orig, width as int, height as int, x as int, y as int, brush, dy as int, dx as int),
            decreases r + 1 - dx,
        {
            let ghost before = pixels@;
            assert(0 <= dx * dx <= r * r && 0 <= dy * dy <= r * r && r * r <= 1152921502459363329)
                by (nonlinear_arith)
                requires
                    -r <= dx <= r,
                    -r <= dy <= r,
                    0 <= r <= 1073741823,
            ;
            let inside = dx * dx + dy * dy <= r * r;
            let px = x + dx;
            let py = y + dy;
            let mut target: Option<usize> = None;
            if inside && px >= 0 && py >= 0 && (px as u64) < (width as u64) && (py as u64) < (height as u64) {
                let ux = px as usize;
                let uy = py as usize;
                if dither_allows(brush.dither, ux, uy) {
                    proof {
                        lemma_index_join(ux as int, uy as int, width as int, height as int);
                        assert(pixels@.len() == orig.len());
                        assert((uy as int) * (width as int) + (ux as int) < pixels.len());
                    }
                    let index = uy * width + ux;
                    let current = pixels[index];
                    pixels.set(index, blend_pixel(current, brush.color, brush.xor));
                    target = Some(index);
                }
            }
            proof {
                let w = width as int;
                let h = height as int;
                let next = stamp_upto(orig, w, h, x as int, y as int, brush, dy as int, dx + 1);
                assert forall|i: int| 0 <= i < orig.len() implies #[trigger] pixels@[i] == next[i] by {
                    lemma_index_split(i, w, h);
                    let ipx = i % w;
                    let ipy = i / w;
                    assert(i < w * h);
                    if ipx - x == dx && ipy - y == dy {
                        assert(ipx == px && ipy == py);
                        if inside && dither_mask(brush.dither, ipx as usize, ipy as usize) {
                            lemma_index_join(ipx, ipy, w, h);
                            assert(target == Some(i as usize));
                        }
                    } else {
                        if let Some(t) = target {
                            lemma_index_join(px as int, py as int, w, h);
                            assert(t != i);
                        }
                    }
                }
                assert(pixels@ =~= next);
            }
            dx = dx + 1;
        }
        proof {
            let w = width as int;
            let h = height as int;
            let a = stamp_upto(orig, w, h, x as int, y as int, brush, dy as int, r + 1);
            let b = stamp_upto(orig, w, h, x as int, y as int, brush, dy + 1, -r);
            assert forall|i: int| 0 <= i < orig.len() implies a[i] == b[i] by {
                if w > 0 {
                    lemma_index_split(i, w, h);
                }
            }
            assert(a =~= b);
        }
        dy = dy + 1;
    }
    proof {
        let w = width as int;
        let h = height as int;
        let a = stamp_upto(orig, w, h, x as int, y as int, brush, r + 1, -r);
        let b = stamp(orig, w, h, x as int, y as int, brush);
        assert forall|i: int| 0 <= i < orig.len() implies a[i] == b[i] by {
            if w > 0 {
                lemma_index_split(i, w, h);
            }
        }
        assert(a =~= b);
    }
}


/// Stamps the brush at each point in turn.
pub open spec fn stamp_all(buf: Seq<Pixel>, w: int, h: int, pts: Seq<(int, int)>, b: Brush) -> Seq<Pixel>
    decreases pts.len(),
{
    if pts.len() == 0 {
        buf
    } else {
        stamp_all(stamp(buf, w, h, pts[0].0, pts[0].1, b), w, h, pts.drop_first(), b)
    }
}

/// The points that Bresenham's walk visits from `(x, y)` with error term
/// `err` towards `(x1, y1)`; `dx = |x1 - x0|`, `dy = -|y1 - y0|`, `sx`, `sy`
/// the step directions, `fuel` a bound on the number of points.
pub open spec fn line_walk(
    x: int,
    y: int,
    err: int,
    x1: int,
    y1: int,
    dx: int,
    dy: int,
    sx: int,
    sy: int,
    fuel: nat,
) -> Seq<(int, int)>
    decreases fuel,
{
    if fuel == 0 {
        Seq::empty()
    } else if x == x1 && y == y1 {
        seq![(x, y)]
    } else {
        let e2 = 2 * err;
        let nx = if e2 >= dy { x + sx } else { x };
        let err1 = if e2 >= dy { err + dy } else { err };
        let ny = if e2 <= dx { y + sy } else { y };
        let err2 = if e2 <= dx { err1 + dx } else { err1 };
        seq![(x, y)] + line_walk(nx, ny, err2, x1, y1, dx, dy, sx, sy, (fuel - 1) as nat)
    }
}

pub open spec fn abs_int(v: int) -> int {
    if v < 0 { -v } else { v }
}

/// The pixels of the line from `(x0, y0)` to `(x1, y1)`, in drawing order.
pub open spec fn line_points(x0: int, y0: int, x1: int, y1: int) -> Seq<(int, int)> {
    let dx = abs_int(x1 - x0);
    let dy = -abs_int(y1 - y0);
    let sx: int = if x0 < x1 { 1 } else { -1 };
    let sy: int = if y0 < y1 { 1 } else { -1 };
    line_walk(x0, y0, dx + dy, x1, y1, dx, dy, sx, sy, (dx - dy + 1) as nat)
}

/// The state invariant of Bresenham's walk: `rx`, `ry` steps remain, and the
/// error term is the one the steps taken so far leave.
pub open spec fn line_state(x: int, y: int, err: int, x1: int, y1: int, dx: int, dy: int, sx: int, sy: int) -> bool {
    let rx = (x1 - x) * sx;
    let ry = (y1 - y) * sy;
    &&& sx == 1 || sx == -1
    &&& sy == 1 || sy == -1
    &&& 0 <= rx <= dx
    &&& 0 <= ry <= -dy
    &&& err == dx * (1 + (-dy - ry)) + dy * (1 + (dx - rx))
}

proof fn lemma_line_step(x: int, y: int, err: int, x1: int, y1: int, dx: int, dy: int, sx: int, sy: int)
    requires
        line_state(x, y, err, x1, y1, dx, dy, sx, sy),
        !(x == x1 && y == y1),
    ensures
        ({
            let e2 = 2 * err;
            let nx = if e2 >= dy { x + sx } else { x };
            let err1 = if e2 >= dy { err + dy } else { err };
            let ny = if e2 <= dx { y + sy } else { y };
            let err2 = if e2 <= dx { err1 + dx } else { err1 };
            &&& line_state(nx, ny, err2, x1, y1, dx, dy, sx, sy)
            &&& (x1 - nx) * sx + (y1 - ny) * sy < (x1 - x) * sx + (y1 - y) * sy
        }),
{
    let rx = (x1 - x) * sx;
    let ry = (y1 - y) * sy;
    let big_dy = -dy;
    let i = dx - rx;
    let j = big_dy - ry;
    assert(rx == 0 <==> x == x1) by (nonlinear_arith)
        requires
            rx == (x1 - x) * sx,
            sx == 1 || sx == -1,
    ;
    assert(ry == 0 <==> y == y1) by (nonlinear_arith)
        requires
            ry == (y1 - y) * sy,
            sy == 1 || sy == -1,
    ;
    assert(err == dx * (1 + j) - big_dy * (1 + i)) by (nonlinear_arith)
        requires
            err == dx * (1 + (-dy - ry)) + dy * (1 + (dx - rx)),
            big_dy == -dy,
            i == dx - rx,
            j == big_dy - ry,
    ;
    let e2 = 2 * err;
    if rx == 0 {
        assert(ry > 0);
        assert(dx * j <= dx * (big_dy - 1)) by (nonlinear_arith)
            requires
                0 <= dx,
                j <= big_dy - 1,
        ;
        assert(e2 < dy) by (nonlinear_arith)
            requires
                err == dx * (1 + j) - big_dy * (1 + i),
                i == dx,
                dx * j <= dx * (big_dy - 1),
                big_dy > 0,
                e2 == 2 * err,
                dy == -big_dy,
        ;
    }
    if ry == 0 {
        assert(rx > 0);
        assert(big_dy * i <= big_dy * (dx - 1)) by (nonlinear_arith)
            requires
                0 <= big_dy,
                i <= dx - 1,
        ;
        assert(e2 > dx) by (nonlinear_arith)
            requires
                err == dx * (1 + j) - big_dy * (1 + i),
                j == big_dy,
                big_dy * i <= big_dy * (dx - 1),
                dx > 0,
                e2 == 2 * err,
        ;
    }
    let nx = if e2 >= dy { x + sx } else { x };
    let ny = if e2 <= dx { y + sy } else { y };
    assert((x1 - nx) * sx == rx - (if e2 >= dy { 1int } else { 0int })) by (nonlinear_arith)
        requires
            rx == (x1 - x) * sx,
            sx == 1 || sx == -1,
            nx == (if e2 >= dy { x + sx } else { x }),
    ;
    assert((y1 - ny) * sy == ry - (if e2 <= dx { 1int } else { 0int })) by (nonlinear_arith)
        requires
            ry == (y1 - y) * sy,
            sy == 1 || sy == -1,
            ny == (if e2 <= dx { y + sy } else { y }),
    ;
    let rx2 = (x1 - nx) * sx;
    let ry2 = (y1 - ny) * sy;
    let err1 = if e2 >= dy { err + dy } else { err };
    let err2 = if e2 <= dx { err1 + dx } else { err1 };
    assert(err2 == dx * (1 + (-dy - ry2)) + dy * (1 + (dx - rx2))) by (nonlinear_arith)
        requires
            err == dx * (1 + (-dy - ry)) + dy * (1 + (dx - rx)),
            rx2 == rx - (if e2 >= dy { 1int } else { 0int }),
            ry2 == ry - (if e2 <= dx { 1int } else { 0int }),
            err1 == (if e2 >= dy { err + dy } else { err }),
            err2 == (if e2 <= dx { err1 + dx } else { err1 }),
    ;
}

proof fn lemma_line_fuel(x: int, y: int, err: int, x1: int, y1: int, dx: int, dy: int, sx: int, sy: int, f: nat, g: nat)
    requires
        line_state(x, y, err, x1, y1, dx, dy, sx, sy),
        f >= (x1 - x) * sx + (y1 - y) * sy + 1,
        g >= (x1 - x) * sx + (y1 - y) * sy + 1,
    ensures
        line_walk(x, y, err, x1, y1, dx, dy, sx, sy, f) == line_walk(x, y, err, x1, y1, dx, dy, sx, sy, g),
    decreases f,
{
    if !(x == x1 && y == y1) {
        lemma_line_step(x, y, err, x1, y1, dx, dy, sx, sy);
        let e2 = 2 * err;
        let nx = if e2 >= dy { x + sx } else { x };
        let err1 = if e2 >= dy { err + dy } else { err };
        let ny = if e2 <= dx { y + sy } else { y };
        let err2 = if e2 <= dx { err1 + dx } else { err1 };
        lemma_line_fuel(nx, ny, err2, x1, y1, dx, dy, sx, sy, (f - 1) as nat, (g - 1) as nat);
    }
}

/// Draws the line from `(x0, y0)` to `(x1, y1)` with Bresenham's algorithm,
/// stamping the brush at each pixel of it.
pub fn draw_raster_line(pixels: &mut Vec<Pixel>, width: usize, height: usize, x0: i32, y0: i32, x1: i32, y1: i32, brush: Brush)
    requires
        old(pixels)@.len() == width * height,
        brush.radius <= MAX_BRUSH_RADIUS,
    ensures
        final(pixels)@ == stamp_all(
            old(pixels)@,
            width as int,
            height as int,
            line_points(x0 as int, y0 as int, x1 as int, y1 as int),
            brush,
        ),
        final(pixels)@.len() == old(pixels)@.len(),
{
    let ghost orig = pixels@;
    proof {
        lemma_stamp_all_len(orig, width as int, height as int, line_points(x0 as int, y0 as int, x1 as int, y1 as int), brush);
    }
    let ghost target = stamp_all(orig, width as int, height as int, line_points(x0 as int, y0 as int, x1 as int, y1 as int), brush);
    let mut x: i64 = x0 as i64;
    let mut y: i64 = y0 as i64;
    let ex: i64 = x1 as i64;
    let ey: i64 = y1 as i64;
    let dx: i64 = if ex >= x { ex - x } else { x - ex };
    let dy: i64 = -(if ey >= y { ey - y } else { y - ey });
    let sx: i64 = if x < ex { 1 } else { -1 };
    let sy: i64 = if y < ey { 1 } else { -1 };
    let mut err: i128 = (dx + dy) as i128;
    proof {
        assert((ex - x) * sx == dx) by (nonlinear_arith)
            requires
                dx == abs_int(ex - x),
                sx == (if x < ex { 1int } else { -1int }),
        ;
        assert((ey - y) * sy == -dy) by (nonlinear_arith)
            requires
                dy == -abs_int(ey - y),
                sy == (if y < ey { 1int } else { -1int }),
        ;
        assert(line_state(x as int, y as int, err as int, ex as int, ey as int, dx as int, dy as int, sx as int, sy as int)) by (nonlinear_arith)
            requires
                dx == abs_int(ex - x),
                dy == -abs_int(ey - y),
                sx == (if x < ex { 1int } else { -1int }),
                sy == (if y < ey { 1int } else { -1int }),
                err == dx + dy,
        ;
    }
    loop
        invariant_except_break
            stamp_all(
                pixels@,
                width as int,
                height as int,
                line_walk(x as int, y as int, err as int, ex as int, ey as int, dx as int, dy as int, sx as int, sy as int,
                    ((ex - x) * sx + (ey - y) * sy + 1) as nat),
                brush,
            ) == target,
        invariant
            line_state(x as int, y as int, err as int, ex as int, ey as int, dx as int, dy as int, sx as int, sy as int),
            ex == x1,
            ey == y1,
            0 <= dx <= 4294967295,
            -4294967295 <= dy <= 0,
            orig.len() == width * height,
            brush.radius <= MAX_BRUSH_RADIUS,
            pixels@.len() == orig.len(),
            target == stamp_all(orig, width as int, height as int, line_points(x0 as int, y0 as int, x1 as int, y1 as int), brush),
        ensures
            pixels@ == target,
        decreases (ex - x) * sx + (ey - y) * sy,
    {
        let ghost rest = line_walk(x as int, y as int, err as int, ex as int, ey as int, dx as int, dy as int, sx as int, sy as int,
            ((ex - x) * sx + (ey - y) * sy + 1) as nat);
        proof {
            assert((ex - x) * sx >= 0 && (ey - y) * sy >= 0);
            if sx == 1 {
                assert((ex - x) * sx == ex - x);
            } else {
                assert((ex - x) * sx == x - ex) by (nonlinear_arith)
                    requires
                        sx == -1,
                ;
            }
            if sy == 1 {
                assert((ey - y) * sy == ey - y);
            } else {
                assert((ey - y) * sy == y - ey) by (nonlinear_arith)
                    requires
                        sy == -1,
                ;
            }
        }
        let ghost before = pixels@;
        put_raster_pixel(pixels, width, height, x, y, brush);
        proof {
            assert(rest.len() > 0);
            assert(rest[0] == (x as int, y as int));
            assert(stamp_all(before, width as int, height as int, rest, brush) == stamp_all(
                pixels@, width as int, height as int, rest.drop_first(), brush));
        }
        if x == ex && y == ey {
            proof {
                assert(rest.drop_first() =~= Seq::<(int, int)>::empty());
                assert(stamp_all(pixels@, width as int, height as int, Seq::<(int, int)>::empty(), brush) == pixels@);
                assert(pixels@ == target);
            }
            break;
        }
        proof {
            lemma_line_step(x as int, y as int, err as int, ex as int, ey as int, dx as int, dy as int, sx as int, sy as int);
            assert(dx * dx <= 18446744065119617025 && dy * dy <= 18446744065119617025) by (nonlinear_arith)
                requires
                    0 <= dx <= 4294967295,
                    -4294967295 <= dy <= 0,
            ;
            let rx = (ex - x) * sx;
            let ry = (ey - y) * sy;
            assert(-100000000000000000000 <= err <= 100000000000000000000) by (nonlinear_arith)
                requires
                    err == dx * (1 + (-dy - ry)) + dy * (1 + (dx - rx)),
                    0 <= rx <= dx,
                    0 <= ry <= -dy,
                    0 <= dx <= 4294967295,
                    -4294967295 <= dy <= 0,
            ;
        }
        let e2: i128 = 2 * err;
        let ghost old_x = x;
        let ghost old_y = y;
        let ghost old_err = err;
        if e2 >= dy as i128 {
            err = err + dy as i128;
            x = x + sx;
        }
        if e2 <= dx as i128 {
            err = err + dx as i128;
            y = y + sy;
        }
        proof {
            let f = ((ex - x) * sx + (ey - y) * sy + 1) as nat;
            let old_f = ((ex - old_x) * sx + (ey - old_y) * sy + 1) as nat;
            assert(rest == seq![(old_x as int, old_y as int)] + line_walk(x as int, y as int, err as int, ex as int, ey as int,
                dx as int, dy as int, sx as int, sy as int, (old_f - 1) as nat));
            lemma_line_fuel(x as int, y as int, err as int, ex as int, ey as int, dx as int, dy as int, sx as int, sy as int, (old_f - 1) as nat, f);
            assert(rest.drop_first() =~= line_walk(x as int, y as int, err as int, ex as int, ey as int,
                dx as int, dy as int, sx as int, sy as int, f));
        }
    }
}


/// Rust's `v / 2` on integers: division truncating towards zero.
pub open spec fn half_toward_zero(v: int) -> int {
    if v >= 0 {
        v / 2
    } else {
        -((-v) / 2)
    }
}

/// The four mirror images of `(x, y)` about the centre `(cx, cy)`, in drawing order.
pub open spec fn quad(cx: int, cy: int, x: int, y: int) -> Seq<(int, int)> {
    seq![(cx + x, cy + y), (cx - x, cy + y), (cx + x, cy - y), (cx - x, cy - y)]
}

/// Whether the first region of the midpoint ellipse walk goes on at `(x, y)`.
pub open spec fn region1_goes_on(x: int, y: int, rx2: int, ry2: int) -> bool {
    2 * ry2 * x <= 2 * rx2 * y
}

/// The state after one step of the first region.
pub open spec fn region1_next(x: int, y: int, d: int, rx2: int, ry2: int) -> (int, int, int) {
    if d < 0 {
        (x + 1, y, d + 2 * ry2 * (x + 1) + ry2)
    } else {
        (x + 1, y - 1, d + 2 * ry2 * (x + 1) - 2 * rx2 * (y - 1) + ry2)
    }
}

/// The points the first region plots from state `(x, y, d)`.
pub open spec fn region1_points(x: int, y: int, d: int, rx2: int, ry2: int, cx: int, cy: int, fuel: nat) -> Seq<(int, int)>
    decreases fuel,
{
    if fuel == 0 || !region1_goes_on(x, y, rx2, ry2) {
        Seq::empty()
    } else {
        let n = region1_next(x, y, d, rx2, ry2);
        quad(cx, cy, x, y) + region1_points(n.0, n.1, n.2, rx2, ry2, cx, cy, (fuel - 1) as nat)
    }
}

/// The `(x, y)` at which the first region ends.
pub open spec fn region1_end(x: int, y: int, d: int, rx2: int, ry2: int, fuel: nat) -> (int, int)
    decreases fuel,
{
    if fuel == 0 || !region1_goes_on(x, y, rx2, ry2) {
        (x, y)
    } else {
        let n = region1_next(x, y, d, rx2, ry2);
        region1_end(n.0, n.1, n.2, rx2, ry2, (fuel - 1) as nat)
    }
}

/// The state after one step of the second region.
pub open spec fn region2_next(x: int, y: int, d: int, rx2: int, ry2: int) -> (int, int, int) {
    if d > 0 {
        (x, y - 1, d - (2 * rx2 * (y - 1) + rx2))
    } else {
        (x + 1, y - 1, d + 2 * ry2 * (x + 1) - 2 * rx2 * (y - 1) + rx2)
    }
}

/// The points the second region plots from state `(x, y, d)`.
pub open spec fn region2_points(x: int, y: int, d: int, rx2: int, ry2: int, cx: int, cy: int) -> Seq<(int, int)>
    decreases y + 1,
{
    if y < 0 {
        Seq::empty()
    } else {
        let n = region2_next(x, y, d, rx2, ry2);
        quad(cx, cy, x, y) + region2_points(n.0, n.1, n.2, rx2, ry2, cx, cy)
    }
}

/// The radius of an ellipse along one axis, from its two bounds.
pub open spec fn ellipse_radius(lo: int, hi: int) -> int {
    let r = abs_int(hi - lo) / 2;
    if r < 1 { 1 } else { r }
}

/// The largest ellipse radius the midpoint algorithm is asked to draw; a
/// larger one overflows its 32-bit arithmetic.
pub const MAX_ELLIPSE_RADIUS: i32 = 32767;

/// The pixels of the midpoint ellipse in the given bounds, in drawing order.
pub open spec fn ellipse_points(left: int, top: int, right: int, bottom: int) -> Seq<(int, int)> {
    let rx = ellipse_radius(left, right);
    let ry = ellipse_radius(top, bottom);
    let cx = half_toward_zero(left + right);
    let cy = half_toward_zero(top + bottom);
    let rx2 = rx * rx;
    let ry2 = ry * ry;
    let d0 = ry2 - rx2 * ry + rx2 / 4;
    let fuel = (2 * rx2 * ry + 1) as nat;
    let e = region1_end(0, ry, d0, rx2, ry2, fuel);
    let d2 = ry2 * (e.0 * e.0 + e.0) + rx2 * (e.1 - 1) * (e.1 - 1) - rx2 * ry2;
    region1_points(0, ry, d0, rx2, ry2, cx, cy, fuel) + region2_points(e.0, e.1, d2, rx2, ry2, cx, cy)
}

/// The measure that bounds how many steps of the first region remain.
pub open spec fn region1_measure(x: int, y: int, rx2: int, ry2: int) -> int {
    if region1_goes_on(x, y, rx2, ry2) {
        2 * rx2 * y - 2 * ry2 * x + 1
    } else {
        0
    }
}

proof fn lemma_region1_fuel(x: int, y: int, d: int, rx2: int, ry2: int, cx: int, cy: int, f: nat, g: nat)
    requires
        ry2 >= 1,
        x >= 0,
        f >= region1_measure(x, y, rx2, ry2),
        g >= region1_measure(x, y, rx2, ry2),
        rx2 >= 0,
    ensures
        region1_points(x, y, d, rx2, ry2, cx, cy, f) == region1_points(x, y, d, rx2, ry2, cx, cy, g),
        region1_end(x, y, d, rx2, ry2, f) == region1_end(x, y, d, rx2, ry2, g),
    decreases f,
{
    if region1_goes_on(x, y, rx2, ry2) {
        let n = region1_next(x, y, d, rx2, ry2);
        assert(2 * ry2 * (x + 1) == 2 * ry2 * x + 2 * ry2) by (nonlinear_arith);
        assert(2 * rx2 * (y - 1) == 2 * rx2 * y - 2 * rx2) by (nonlinear_arith);
        assert(region1_measure(n.0, n.1, rx2, ry2) < region1_measure(x, y, rx2, ry2));
        lemma_region1_fuel(n.0, n.1, n.2, rx2, ry2, cx, cy, (f - 1) as nat, (g - 1) as nat);
    }
}

pub proof fn lemma_stamp_all_append(buf: Seq<Pixel>, w: int, h: int, a: Seq<(int, int)>, b: Seq<(int, int)>, br: Brush)
    ensures
        stamp_all(buf, w, h, a + b, br) == stamp_all(stamp_all(buf, w, h, a, br), w, h, b, br),
    decreases a.len(),
{
    if a.len() == 0 {
        assert(a + b =~= b);
    } else {
        assert((a + b).drop_first() =~= a.drop_first() + b);
        lemma_stamp_all_append(stamp(buf, w, h, a[0].0, a[0].1, br), w, h, a.drop_first(), b, br);
    }
}

/// Stamps the brush at the four mirror images of `(x, y)` about `(cx, cy)`.
fn stamp_quad(pixels: &mut Vec<Pixel>, width: usize, height: usize, cx: i64, cy: i64, x: i64, y: i64, brush: Brush)
    requires
        old(pixels)@.len() == width * height,
        brush.radius <= MAX_BRUSH_RADIUS,
        -4294967296 <= cx <= 4294967296,
        -4294967296 <= cy <= 4294967296,
        -4294967296 <= x <= 4294967296,
        -4294967296 <= y <= 4294967296,
    ensures
        final(pixels)@ == stamp_all(old(pixels)@, width as int, height as int, quad(cx as int, cy as int, x as int, y as int), brush),
        final(pixels)@.len() == old(pixels)@.len(),
{
    let ghost b0 = pixels@;
    let ghost q = quad(cx as int, cy as int, x as int, y as int);
    put_raster_pixel(pixels, width, height, cx + x, cy + y, brush);
    let ghost b1 = pixels@;
    put_raster_pixel(pixels, width, height, cx - x, cy + y, brush);
    let ghost b2 = pixels@;
    put_raster_pixel(pixels, width, height, cx + x, cy - y, brush);
    let ghost b3 = pixels@;
    put_raster_pixel(pixels, width, height, cx - x, cy - y, brush);
    proof {
        let w = width as int;
        let h = height as int;
        let t3 = seq![(cx - x, cy - y)];
        let t2 = seq![(cx + x, cy - y), (cx - x, cy - y)];
        let t1 = seq![(cx - x, cy + y), (cx + x, cy - y), (cx - x, cy - y)];
        assert(t3.drop_first() =~= Seq::<(int, int)>::empty());
        assert(stamp_all(pixels@, w, h, Seq::<(int, int)>::empty(), brush) == pixels@);
        assert(stamp_all(b3, w, h, t3, brush) == stamp_all(pixels@, w, h, t3.drop_first(), brush));
        assert(stamp_all(b3, w, h, t3, brush) == pixels@);
        assert(t2.drop_first() =~= t3);
        assert(stamp_all(b2, w, h, t2, brush) == pixels@);
        assert(t1.drop_first() =~= t2);
        assert(stamp_all(b1, w, h, t1, brush) == pixels@);
        assert(q.drop_first() =~= t1);
        assert(stamp_all(b0, w, h, q, brush) == pixels@);
    }
}

/// Draws the outline of the ellipse in the given bounds with the midpoint
/// algorithm, stamping the brush at each plotted pixel.
pub fn draw_raster_ellipse(pixels: &mut Vec<Pixel>, width: usize, height: usize, bounds: [i32; 4], brush: Brush)
    requires
        old(pixels)@.len() == width * height,
        brush.radius <= MAX_BRUSH_RADIUS,
        abs_int(bounds[2] - bounds[0]) / 2 <= MAX_ELLIPSE_RADIUS,
        abs_int(bounds[3] - bounds[1]) / 2 <= MAX_ELLIPSE_RADIUS,
    ensures
        final(pixels)@ == stamp_all(
            old(pixels)@,
            width as int,
            height as int,
            ellipse_points(bounds[0] as int, bounds[1] as int, bounds[2] as int, bounds[3] as int),
            brush,
        ),
        final(pixels)@.len() == old(pixels)@.len(),
{
    let ghost orig = pixels@;
    proof {
        lemma_stamp_all_len(orig, width as int, height as int, ellipse_points(bounds[0] as int, bounds[1] as int, bounds[2] as int, bounds[3] as int), brush);
    }
    let ghost target = stamp_all(orig, width as int, height as int,
        ellipse_points(bounds[0] as int, bounds[1] as int, bounds[2] as int, bounds[3] as int), brush);
    let left = bounds[0] as i64;
    let top = bounds[1] as i64;
    let right = bounds[2] as i64;
    let bottom = bounds[3] as i64;
    let half_w = (if right >= left { right - left } else { left - right }) / 2;
    let half_h = (if bottom >= top { bottom - top } else { top - bottom }) / 2;
    let rx: i64 = if half_w < 1 { 1 } else { half_w };
    let ry: i64 = if half_h < 1 { 1 } else { half_h };
    assert(half_w == abs_int(bounds[2] - bounds[0]) / 2);
    assert(half_h == abs_int(bounds[3] - bounds[1]) / 2);
    assert(rx == ellipse_radius(bounds[0] as int, bounds[2] as int));
    assert(ry == ellipse_radius(bounds[1] as int, bounds[3] as int));
    let sum_x = left + right;
    let sum_y = top + bottom;
    let cx: i64 = if sum_x >= 0 { sum_x / 2 } else { -((-sum_x) / 2) };
    let cy: i64 = if sum_y >= 0 { sum_y / 2 } else { -((-sum_y) / 2) };
    assert(0 <= rx * rx <= 1073676289 && 0 <= ry * ry <= 1073676289) by (nonlinear_arith)
        requires
            1 <= rx <= 32767,
            1 <= ry <= 32767,
    ;
    let rx2: i128 = (rx as i128) * (rx as i128);
    let ry2: i128 = (ry as i128) * (ry as i128);
    proof {
        assert(1 <= rx2 <= 1073676289 && 1 <= ry2 <= 1073676289 && ry2 >= ry) by (nonlinear_arith)
            requires
                1 <= rx <= 32767,
                1 <= ry <= 32767,
                rx2 == rx * rx,
                ry2 == ry * ry,
        ;
        assert(0 <= rx2 * ry <= 35181150961663) by (nonlinear_arith)
            requires
                1 <= rx2 <= 1073676289,
                1 <= ry <= 32767,
        ;
    }
    let ghost d0: int = ry2 - rx2 * ry + rx2 / 4;
    let ghost fuel0 = (2 * rx2 * ry + 1) as nat;
    let ghost e = region1_end(0, ry as int, d0, rx2 as int, ry2 as int, fuel0);
    let ghost r2 = region2_points(e.0, e.1, ry2 * (e.0 * e.0 + e.0) + rx2 * (e.1 - 1) * (e.1 - 1) - rx2 * ry2,
        rx2 as int, ry2 as int, cx as int, cy as int);
    let mut x: i128 = 0;
    let mut y: i128 = ry as i128;
    let mut d: i128 = ry2 - rx2 * (ry as i128) + rx2 / 4;
    proof {
        assert(ellipse_points(bounds[0] as int, bounds[1] as int, bounds[2] as int, bounds[3] as int)
            == region1_points(0, ry as int, d0, rx2 as int, ry2 as int, cx as int, cy as int, fuel0) + r2);
        lemma_region1_fuel(0, ry as int, d as int, rx2 as int, ry2 as int, cx as int, cy as int, fuel0,
            region1_measure(0, ry as int, rx2 as int, ry2 as int) as nat);
        assert(-70364449275904 <= 2 * rx2 * y <= 70364449275904) by (nonlinear_arith)
            requires
                1 <= rx2 <= 1073676289,
                1 <= y <= 32767,
        ;
    }
    while 2 * ry2 * x <= 2 * rx2 * y
        invariant
            1 <= rx <= 32767,
            1 <= ry <= 32767,
            rx2 == rx * rx,
            ry2 == ry * ry,
            1 <= rx2 <= 1073676289,
            1 <= ry2 <= 1073676289,
            ry2 >= ry,
            0 <= x <= rx2 + 1,
            -1 <= y <= ry,
            0 <= 2 * ry2 * x <= 2305561549268975620,
            -70364449275904 <= 2 * rx2 * y <= 70364449275904,
            -9223372036854775808 * (x + 1) <= d <= 9223372036854775808 * (x + 1),
            -2147483648 <= cx <= 2147483647,
            -2147483648 <= cy <= 2147483647,
            orig.len() == width * height,
            pixels@.len() == orig.len(),
            brush.radius <= MAX_BRUSH_RADIUS,
            region1_end(x as int, y as int, d as int, rx2 as int, ry2 as int,
                region1_measure(x as int, y as int, rx2 as int, ry2 as int) as nat) == e,
            stamp_all(pixels@, width as int, height as int,
                region1_points(x as int, y as int, d as int, rx2 as int, ry2 as int, cx as int, cy as int,
                    region1_measure(x as int, y as int, rx2 as int, ry2 as int) as nat) + r2, brush) == target,
        decreases region1_measure(x as int, y as int, rx2 as int, ry2 as int),
    {
        let ghost m = region1_measure(x as int, y as int, rx2 as int, ry2 as int) as nat;
        let ghost n = region1_next(x as int, y as int, d as int, rx2 as int, ry2 as int);
        proof {
            assert(0 <= y) by (nonlinear_arith)
                requires
                    2 * ry2 * x <= 2 * rx2 * y,
                    0 <= x,
                    1 <= rx2,
                    1 <= ry2,
            ;
            assert(x <= rx2) by (nonlinear_arith)
                requires
                    2 * ry2 * x <= 2 * rx2 * y,
                    0 <= x,
                    0 <= y <= ry,
                    ry <= ry2,
                    1 <= rx2,
                    1 <= ry2,
            ;
            assert(2 * ry2 * (x + 1) == 2 * ry2 * x + 2 * ry2) by (nonlinear_arith);
            assert(2 * rx2 * (y - 1) == 2 * rx2 * y - 2 * rx2) by (nonlinear_arith);
            assert(region1_measure(n.0, n.1, rx2 as int, ry2 as int) < m);
            lemma_region1_fuel(n.0, n.1, n.2, rx2 as int, ry2 as int, cx as int, cy as int, (m - 1) as nat,
                region1_measure(n.0, n.1, rx2 as int, ry2 as int) as nat);
            lemma_stamp_all_append(pixels@, width as int, height as int, quad(cx as int, cy as int, x as int, y as int),
                region1_points(n.0, n.1, n.2, rx2 as int, ry2 as int, cx as int, cy as int, (m - 1) as nat) + r2, brush);
            assert(region1_points(x as int, y as int, d as int, rx2 as int, ry2 as int, cx as int, cy as int, m) + r2
                =~= quad(cx as int, cy as int, x as int, y as int)
                + (region1_points(n.0, n.1, n.2, rx2 as int, ry2 as int, cx as int, cy as int, (m - 1) as nat) + r2));
        }
        stamp_quad(pixels, width, height, cx, cy, x as i64, y as i64, brush);
        proof {
            assert(0 <= 2 * ry2 * (x + 1) + ry2 <= 2305843009213693952) by (nonlinear_arith)
                requires
                    1 <= ry2 <= 1073676289,
                    0 <= x <= 1073676289,
            ;
            assert(-140737488355328 <= 2 * rx2 * (y - 1) <= 140737488355328) by (nonlinear_arith)
                requires
                    1 <= rx2 <= 1073676289,
                    -1 <= y <= 32767,
            ;
        }
        if d < 0 {
            x = x + 1;
            d = d + 2 * ry2 * x + ry2;
        } else {
            x = x + 1;
            y = y - 1;
            d = d + 2 * ry2 * x - 2 * rx2 * y + ry2;
        }
        proof {
            assert((x as int, y as int, d as int) == n);
            assert(0 <= 2 * ry2 * x <= 2305561549268975620) by (nonlinear_arith)
                requires
                    1 <= ry2 <= 1073676289,
                    0 <= x <= 1073676290,
            ;
            assert(-70364449275904 <= 2 * rx2 * y <= 70364449275904) by (nonlinear_arith)
                requires
                    1 <= rx2 <= 1073676289,
                    -1 <= y <= 32767,
            ;
        }
    }
    proof {
        assert(region1_points(x as int, y as int, d as int, rx2 as int, ry2 as int, cx as int, cy as int,
            region1_measure(x as int, y as int, rx2 as int, ry2 as int) as nat) + r2 =~= r2);
        assert(e == (x as int, y as int));
        assert(0 <= x * x + x <= 1152780776781840390) by (nonlinear_arith)
            requires
                0 <= x <= 1073676290,
        ;
        assert(0 <= ry2 * (x * x + x) <= 1237713386445663752525512710) by (nonlinear_arith)
            requires
                1 <= ry2 <= 1073676289,
                0 <= x * x + x <= 1152780776781840390,
        ;
        assert(0 <= (y - 1) * (y - 1) <= 1073741824) by (nonlinear_arith)
            requires
                -1 <= y <= 32767,
        ;
        assert(0 <= rx2 * ((y - 1) * (y - 1)) <= 1152921504606846976) by (nonlinear_arith)
            requires
                1 <= rx2 <= 1073676289,
                0 <= (y - 1) * (y - 1) <= 1073741824,
        ;
        assert(rx2 * (y - 1) * (y - 1) == rx2 * ((y - 1) * (y - 1))) by (nonlinear_arith);
        assert(0 <= rx2 * ry2 <= 1152780773560811521) by (nonlinear_arith)
            requires
                1 <= rx2 <= 1073676289,
                1 <= ry2 <= 1073676289,
        ;
    }
    let ghost y_start = y;
    d = ry2 * (x * x + x) + rx2 * ((y - 1) * (y - 1)) - rx2 * ry2;
    while y >= 0
        invariant
            1 <= rx2 <= 1073676289,
            1 <= ry2 <= 1073676289,
            -1 <= y <= y_start,
            y_start <= 32767,
            0 <= x <= 1073676290 + (y_start - y),
            -2475880078570760549798248448 - 9223372036854775808 * (y_start - y) <= d
                <= 2475880078570760549798248448 + 9223372036854775808 * (y_start - y),
            -2147483648 <= cx <= 2147483647,
            -2147483648 <= cy <= 2147483647,
            orig.len() == width * height,
            pixels@.len() == orig.len(),
            brush.radius <= MAX_BRUSH_RADIUS,
            stamp_all(pixels@, width as int, height as int,
                region2_points(x as int, y as int, d as int, rx2 as int, ry2 as int, cx as int, cy as int), brush) == target,
        decreases y + 1,
    {
        let ghost n = region2_next(x as int, y as int, d as int, rx2 as int, ry2 as int);
        proof {
            lemma_stamp_all_append(pixels@, width as int, height as int, quad(cx as int, cy as int, x as int, y as int),
                region2_points(n.0, n.1, n.2, rx2 as int, ry2 as int, cx as int, cy as int), brush);
        }
        stamp_quad(pixels, width, height, cx, cy, x as i64, y as i64, brush);
        proof {
            assert(0 <= 2 * ry2 * (x + 1) <= 2305843009213693952) by (nonlinear_arith)
                requires
                    1 <= ry2 <= 1073676289,
                    0 <= x <= 1073709058,
            ;
            assert(-140737488355328 <= 2 * rx2 * (y - 1) <= 140737488355328) by (nonlinear_arith)
                requires
                    1 <= rx2 <= 1073676289,
                    -1 <= y <= 32767,
            ;
        }
        if d > 0 {
            y = y - 1;
            d = d - (2 * rx2 * y + rx2);
        } else {
            y = y - 1;
            x = x + 1;
            d = d + 2 * ry2 * x - 2 * rx2 * y + rx2;
        }
        proof {
            assert((x as int, y as int, d as int) == n);
        }
    }
    proof {
        assert(region2_points(x as int, y as int, d as int, rx2 as int, ry2 as int, cx as int, cy as int)
            =~= Seq::<(int, int)>::empty());
    }
}


pub open spec fn min_int(a: int, b: int) -> int {
    if a <= b { a } else { b }
}

pub open spec fn max_int(a: int, b: int) -> int {
    if a >= b { a } else { b }
}

/// Whether the segment from `a` to `b` passes within `sw / 2` of the
/// sample `s`; all three in half-pixel units (doubled coordinates).
pub open spec fn seg_within(sx: int, sy: int, ax: int, ay: int, bx: int, by: int, sw: int) -> bool {
    let ddx = bx - ax;
    let ddy = by - ay;
    let len2 = ddx * ddx + ddy * ddy;
    let vx = sx - ax;
    let vy = sy - ay;
    let dot = vx * ddx + vy * ddy;
    if len2 == 0 || dot <= 0 {
        vx * vx + vy * vy <= sw * sw
    } else if dot >= len2 {
        (sx - bx) * (sx - bx) + (sy - by) * (sy - by) <= sw * sw
    } else {
        let cross = vx * ddy - vy * ddx;
        cross * cross <= sw * sw * len2
    }
}

/// Whether the edge arriving at `cur` from `prev` crosses the ray going
/// left from the sample (even-odd rule); half-pixel units.
pub open spec fn edge_crosses(sx: int, sy: int, cx: int, cy: int, px: int, py: int) -> bool {
    &&& (cy > sy) != (py > sy)
    &&& {
        let xn = sx - cx;
        let a = px - cx;
        let bn = sy - cy;
        let dn = py - cy;
        if dn > 0 {
            xn * dn < a * bn
        } else {
            xn * dn > a * bn
        }
    }
}

/// Point `i` of a point list in half-pixel units.
pub open spec fn hx(pts: Seq<Point>, i: int) -> int {
    2 * pts[i][0]
}

pub open spec fn hy(pts: Seq<Point>, i: int) -> int {
    2 * pts[i][1]
}

/// How many of the first `k` polygon edges cross the ray from the sample.
pub open spec fn crossings(pts: Seq<Point>, sx: int, sy: int, k: int) -> int
    decreases k,
{
    if k <= 0 {
        0
    } else {
        let i = k - 1;
        let prev = if i == 0 { pts.len() - 1 } else { i - 1 };
        crossings(pts, sx, sy, k - 1) + if edge_crosses(sx, sy, hx(pts, i), hy(pts, i), hx(pts, prev), hy(pts, prev)) {
            1int
        } else {
            0int
        }
    }
}

/// Whether the sample lies inside the polygon by the even-odd rule.
pub open spec fn polygon_contains(pts: Seq<Point>, sx: int, sy: int) -> bool {
    crossings(pts, sx, sy, pts.len() as int) % 2 == 1
}

/// Whether one of the first `k` segments between consecutive points passes
/// within `sw / 2` of the sample.
pub open spec fn near_path(pts: Seq<Point>, sx: int, sy: int, sw: int, k: int) -> bool {
    exists|i: int| 0 <= i < k && #[trigger] seg_within(sx, sy, hx(pts, i), hy(pts, i), hx(pts, i + 1), hy(pts, i + 1), sw)
}

/// Whether one of the polygon's closing-inclusive edges `i < k` (edge `i`
/// runs from point `i` to point `i + 1`, the last back to the first) passes
/// within `sw / 2` of the sample.
pub open spec fn near_polygon(pts: Seq<Point>, sx: int, sy: int, sw: int, k: int) -> bool {
    exists|i: int|
        0 <= i < k && #[trigger] seg_within(
            sx,
            sy,
            hx(pts, i),
            hy(pts, i),
            hx(pts, (i + 1) % pts.len() as int),
            hy(pts, (i + 1) % pts.len() as int),
            sw,
        )
}

pub open spec fn pixel_covers(pts: Seq<Point>, sw: int, sx: int, sy: int) -> bool {
    let dx = sx - hx(pts, 0);
    let dy = sy - hy(pts, 0);
    dx * dx + dy * dy <= 4 * (sw * sw)
}

pub open spec fn rect_covers(pts: Seq<Point>, fill: bool, sw: int, sx: int, sy: int) -> bool {
    let l = min_int(hx(pts, 0), hx(pts, 1));
    let r = max_int(hx(pts, 0), hx(pts, 1));
    let t = min_int(hy(pts, 0), hy(pts, 1));
    let b = max_int(hy(pts, 0), hy(pts, 1));
    let inside = l <= sx <= r && t <= sy <= b;
    let edge = min_int(min_int(sx - l, r - sx), min_int(sy - t, b - sy));
    inside && (fill || edge <= sw)
}

pub open spec fn round_rect_covers(pts: Seq<Point>, fill: bool, radius: int, sw: int, sx: int, sy: int) -> bool {
    let l = min_int(hx(pts, 0), hx(pts, 1));
    let r = max_int(hx(pts, 0), hx(pts, 1));
    let t = min_int(hy(pts, 0), hy(pts, 1));
    let b = max_int(hy(pts, 0), hy(pts, 1));
    let corner = min_int(4 * max_int(radius, 0), min_int(r - l, b - t));
    let qx = abs_int(2 * sx - (l + r)) - ((r - l) - corner);
    let qy = abs_int(2 * sy - (t + b)) - ((b - t) - corner);
    let half_stroke = 2 * sw;
    if qx > 0 || qy > 0 {
        let ox = max_int(qx, 0);
        let oy = max_int(qy, 0);
        let d2 = ox * ox + oy * oy;
        if fill {
            d2 <= corner * corner
        } else {
            d2 <= (corner + half_stroke) * (corner + half_stroke) && (corner - half_stroke <= 0 || (corner
                - half_stroke) * (corner - half_stroke) <= d2)
        }
    } else {
        fill || corner - max_int(qx, qy) <= half_stroke
    }
}

pub open spec fn ellipse_covers(pts: Seq<Point>, fill: bool, sw: int, sx: int, sy: int) -> bool {
    let l = min_int(hx(pts, 0), hx(pts, 1));
    let r = max_int(hx(pts, 0), hx(pts, 1));
    let t = min_int(hy(pts, 0), hy(pts, 1));
    let b = max_int(hy(pts, 0), hy(pts, 1));
    let rx = r - l;
    let ry = b - t;
    if rx <= 0 || ry <= 0 {
        false
    } else {
        let dx = 2 * sx - (l + r);
        let dy = 2 * sy - (t + b);
        let n = dx * dx * ry * ry + dy * dy * rx * rx - rx * rx * ry * ry;
        if fill {
            n <= 0
        } else {
            abs_int(n) * min_int(rx, ry) <= 2 * sw * rx * rx * ry * ry
        }
    }
}

pub open spec fn path_covers(pts: Seq<Point>, closed: bool, sw: int, sx: int, sy: int) -> bool {
    near_path(pts, sx, sy, sw, pts.len() - 1) || (closed && seg_within(
        sx,
        sy,
        hx(pts, pts.len() - 1),
        hy(pts, pts.len() - 1),
        hx(pts, 0),
        hy(pts, 0),
        sw,
    ))
}

/// Whether the filled region of an object covers the centre of pixel
/// `(x, y)`: the coverage rules of the preview, in exact arithmetic on
/// half-pixel units (quarter-pixel units where a sample is compared with the
/// centre of a box). `sw` is the stroke width.
pub open spec fn covers(o: ObjectView, sw: int, x: int, y: int) -> bool {
    let pts = o.points;
    let k = spec_kind_of(o.kind);
    let sx = 2 * x + 1;
    let sy = 2 * y + 1;
    if k == Kind::Pixel {
        pixel_covers(pts, sw, sx, sy)
    } else if k == Kind::Rect && pts.len() >= 2 {
        rect_covers(pts, o.style.fill, sw, sx, sy)
    } else if k == Kind::RoundRect && pts.len() >= 2 {
        round_rect_covers(pts, o.style.fill, o.style.radius as int, sw, sx, sy)
    } else if k == Kind::Ellipse && pts.len() >= 2 {
        ellipse_covers(pts, o.style.fill, sw, sx, sy)
    } else if k == Kind::Polygon && pts.len() >= 3 {
        (o.style.fill && polygon_contains(pts, sx, sy)) || near_polygon(pts, sx, sy, sw, pts.len() as int)
    } else if pts.len() >= 2 {
        path_covers(pts, o.closed, sw, sx, sy)
    } else {
        false
    }
}

/// The shape kinds the rasteriser tells apart.
#[derive(Clone, Copy, PartialEq, Eq, Structural, Debug)]
pub enum Kind {
    Pixel,
    Line,
    Polyline,
    Path,
    Rect,
    RoundRect,
    Ellipse,
    Polygon,
    Other,
}

pub open spec fn spec_kind_of(name: Seq<char>) -> Kind {
    if name == "pixel"@ {
        Kind::Pixel
    } else if name == "line"@ {
        Kind::Line
    } else if name == "polyline"@ {
        Kind::Polyline
    } else if name == "path"@ {
        Kind::Path
    } else if name == "rect"@ {
        Kind::Rect
    } else if name == "round_rect"@ {
        Kind::RoundRect
    } else if name == "ellipse"@ {
        Kind::Ellipse
    } else if name == "polygon"@ {
        Kind::Polygon
    } else {
        Kind::Other
    }
}

pub fn kind_of(name: &str) -> (k: Kind)
    ensures
        k == spec_kind_of(name@),
{
    if str_eq(name, "pixel") {
        Kind::Pixel
    } else if str_eq(name, "line") {
        Kind::Line
    } else if str_eq(name, "polyline") {
        Kind::Polyline
    } else if str_eq(name, "path") {
        Kind::Path
    } else if str_eq(name, "rect") {
        Kind::Rect
    } else if str_eq(name, "round_rect") {
        Kind::RoundRect
    } else if str_eq(name, "ellipse") {
        Kind::Ellipse
    } else if str_eq(name, "polygon") {
        Kind::Polygon
    } else {
        Kind::Other
    }
}

/// Bound on coordinates in half-pixel units (2^26).
pub open spec fn half_bound() -> int {
    67108864
}

pub open spec fn in_half_bound(v: int) -> bool {
    -half_bound() <= v <= half_bound()
}

/// Every point lies within `COORD_LIMIT`.
pub open spec fn points_in_range(pts: Seq<Point>) -> bool {
    forall|i: int|
        0 <= i < pts.len() ==> -COORD_LIMIT <= #[trigger] pts[i][0] <= COORD_LIMIT && -COORD_LIMIT
            <= pts[i][1] <= COORD_LIMIT
}

proof fn lemma_mul_bound(a: int, b: int, ka: int, kb: int)
    requires
        -ka <= a <= ka,
        -kb <= b <= kb,
    ensures
        -(ka * kb) <= a * b <= ka * kb,
{
    assert(-(ka * kb) <= a * b <= ka * kb) by (nonlinear_arith)
        requires
            -ka <= a <= ka,
            -kb <= b <= kb,
    ;
}

fn seg_within_exec(sx: i128, sy: i128, ax: i128, ay: i128, bx: i128, by: i128, sw: i128) -> (near: bool)
    requires
        in_half_bound(sx as int),
        in_half_bound(sy as int),
        in_half_bound(ax as int),
        in_half_bound(ay as int),
        in_half_bound(bx as int),
        in_half_bound(by as int),
        1 <= sw <= 2147483647,
    ensures
        near == seg_within(sx as int, sy as int, ax as int, ay as int, bx as int, by as int, sw as int),
{
    let ddx = bx - ax;
    let ddy = by - ay;
    let vx = sx - ax;
    let vy = sy - ay;
    let wx = sx - bx;
    let wy = sy - by;
    proof {
        let k: int = 134217728;
        lemma_mul_bound(ddx as int, ddx as int, k, k);
        lemma_mul_bound(ddy as int, ddy as int, k, k);
        lemma_mul_bound(vx as int, ddx as int, k, k);
        lemma_mul_bound(vy as int, ddy as int, k, k);
        lemma_mul_bound(vx as int, vx as int, k, k);
        lemma_mul_bound(vy as int, vy as int, k, k);
        lemma_mul_bound(wx as int, wx as int, k, k);
        lemma_mul_bound(wy as int, wy as int, k, k);
        lemma_mul_bound(vx as int, ddy as int, k, k);
        lemma_mul_bound(vy as int, ddx as int, k, k);
        lemma_mul_bound(sw as int, sw as int, 2147483647, 2147483647);
    }
    let len2 = ddx * ddx + ddy * ddy;
    let dot = vx * ddx + vy * ddy;
    let sw2 = sw * sw;
    if len2 == 0 || dot <= 0 {
        vx * vx + vy * vy <= sw2
    } else if dot >= len2 {
        wx * wx + wy * wy <= sw2
    } else {
        let cross = vx * ddy - vy * ddx;
        proof {
            lemma_mul_bound(cross as int, cross as int, 36028797018963968, 36028797018963968);
            lemma_mul_bound(sw2 as int, len2 as int, 4611686014132420609, 36028797018963968);
        }
        cross * cross <= sw2 * len2
    }
}

fn edge_crosses_exec(sx: i128, sy: i128, cx: i128, cy: i128, px: i128, py: i128) -> (crosses: bool)
    requires
        in_half_bound(sx as int),
        in_half_bound(sy as int),
        in_half_bound(cx as int),
        in_half_bound(cy as int),
        in_half_bound(px as int),
        in_half_bound(py as int),
    ensures
        crosses == edge_crosses(sx as int, sy as int, cx as int, cy as int, px as int, py as int),
{
    if (cy > sy) == (py > sy) {
        return false;
    }
    let xn = sx - cx;
    let a = px - cx;
    let bn = sy - cy;
    let dn = py - cy;
    proof {
        let k: int = 134217728;
        lemma_mul_bound(xn as int, dn as int, k, k);
        lemma_mul_bound(a as int, bn as int, k, k);
    }
    if dn > 0 {
        xn * dn < a * bn
    } else {
        xn * dn > a * bn
    }
}


fn polygon_contains_exec(pts: &Vec<Point>, sx: i128, sy: i128) -> (inside: bool)
    requires
        pts.len() >= 1,
        points_in_range(pts@),
        in_half_bound(sx as int),
        in_half_bound(sy as int),
    ensures
        inside == polygon_contains(pts@, sx as int, sy as int),
{
    let n = pts.len();
    let mut inside = false;
    let mut i: usize = 0;
    while i < n
        invariant
            n == pts.len(),
            n >= 1,
            i <= n,
            points_in_range(pts@),
            in_half_bound(sx as int),
            in_half_bound(sy as int),
            inside == (crossings(pts@, sx as int, sy as int, i as int) % 2 == 1),
        decreases n - i,
    {
        let prev = if i == 0 { n - 1 } else { i - 1 };
        let c = pts[i];
        let q = pts[prev];
        if edge_crosses_exec(sx, sy, 2 * (c[0] as i128), 2 * (c[1] as i128), 2 * (q[0] as i128), 2 * (q[1] as i128)) {
            inside = !inside;
        }
        i = i + 1;
    }
    inside
}

fn near_polygon_exec(pts: &Vec<Point>, sx: i128, sy: i128, sw: i128) -> (near: bool)
    requires
        pts.len() >= 1,
        points_in_range(pts@),
        in_half_bound(sx as int),
        in_half_bound(sy as int),
        1 <= sw <= 2147483647,
    ensures
        near == near_polygon(pts@, sx as int, sy as int, sw as int, pts.len() as int),
{
    let n = pts.len();
    let mut i: usize = 0;
    while i < n
        invariant
            n == pts.len(),
            n >= 1,
            i <= n,
            points_in_range(pts@),
            in_half_bound(sx as int),
            in_half_bound(sy as int),
            1 <= sw <= 2147483647,
            !near_polygon(pts@, sx as int, sy as int, sw as int, i as int),
        decreases n - i,
    {
        let j = if i + 1 == n { 0 } else { i + 1 };
        proof {
            if i + 1 == n {
                vstd::arithmetic::div_mod::lemma_mod_self_0(n as int);
            } else {
                vstd::arithmetic::div_mod::lemma_small_mod((i + 1) as nat, n as nat);
            }
        }
        assert(j as int == (i + 1) % (n as int));
        let a = pts[i];
        let b = pts[j];
        if seg_within_exec(sx, sy, 2 * (a[0] as i128), 2 * (a[1] as i128), 2 * (b[0] as i128), 2 * (b[1] as i128), sw) {
            assert(seg_within(sx as int, sy as int, hx(pts@, i as int), hy(pts@, i as int),
                hx(pts@, (i + 1) % (n as int)), hy(pts@, (i + 1) % (n as int)), sw as int));
            return true;
        }
        i = i + 1;
    }
    false
}

fn near_path_exec(pts: &Vec<Point>, sx: i128, sy: i128, sw: i128) -> (near: bool)
    requires
        pts.len() >= 1,
        points_in_range(pts@),
        in_half_bound(sx as int),
        in_half_bound(sy as int),
        1 <= sw <= 2147483647,
    ensures
        near == near_path(pts@, sx as int, sy as int, sw as int, pts.len() - 1),
{
    let n = pts.len();
    let mut i: usize = 0;
    while i + 1 < n
        invariant
            n == pts.len(),
            n >= 1,
            i + 1 <= n,
            points_in_range(pts@),
            in_half_bound(sx as int),
            in_half_bound(sy as int),
            1 <= sw <= 2147483647,
            !near_path(pts@, sx as int, sy as int, sw as int, i as int),
        decreases n - i,
    {
        let a = pts[i];
        let b = pts[i + 1];
        if seg_within_exec(sx, sy, 2 * (a[0] as i128), 2 * (a[1] as i128), 2 * (b[0] as i128), 2 * (b[1] as i128), sw) {
            assert(seg_within(sx as int, sy as int, hx(pts@, i as int), hy(pts@, i as int),
                hx(pts@, i + 1), hy(pts@, i + 1), sw as int));
            return true;
        }
        i = i + 1;
    }
    false
}

fn min128(a: i128, b: i128) -> (m: i128)
    ensures
        m == min_int(a as int, b as int),
{
    if a <= b { a } else { b }
}

fn max128(a: i128, b: i128) -> (m: i128)
    ensures
        m == max_int(a as int, b as int),
{
    if a >= b { a } else { b }
}

fn rect_covers_exec(pts: &Vec<Point>, fill: bool, sw: i128, sx: i128, sy: i128) -> (covered: bool)
    requires
        pts.len() >= 2,
        points_in_range(pts@),
        in_half_bound(sx as int),
        in_half_bound(sy as int),
        1 <= sw <= 2147483647,
    ensures
        covered == rect_covers(pts@, fill, sw as int, sx as int, sy as int),
{
    let p0 = pts[0];
    let p1 = pts[1];
    let x0: i128 = 2 * (p0[0] as i128);
    let y0: i128 = 2 * (p0[1] as i128);
    let x1: i128 = 2 * (p1[0] as i128);
    let y1: i128 = 2 * (p1[1] as i128);
    let l = min128(x0, x1);
    let r = max128(x0, x1);
    let t = min128(y0, y1);
    let b = max128(y0, y1);
    let inside = l <= sx && sx <= r && t <= sy && sy <= b;
    let edge = min128(min128(sx - l, r - sx), min128(sy - t, b - sy));
    inside && (fill || edge <= sw)
}

#[verifier::spinoff_prover]
#[verifier::rlimit(60)]
fn round_rect_covers_exec(pts: &Vec<Point>, fill: bool, radius: i32, sw: i128, sx: i128, sy: i128) -> (covered: bool)
    requires
        pts.len() >= 2,
        points_in_range(pts@),
        in_half_bound(sx as int),
        in_half_bound(sy as int),
        1 <= sw <= 2147483647,
    ensures
        covered == round_rect_covers(pts@, fill, radius as int, sw as int, sx as int, sy as int),
{
    let p0 = pts[0];
    let p1 = pts[1];
    let x0: i128 = 2 * (p0[0] as i128);
    let y0: i128 = 2 * (p0[1] as i128);
    let x1: i128 = 2 * (p1[0] as i128);
    let y1: i128 = 2 * (p1[1] as i128);
    let l = min128(x0, x1);
    let r = max128(x0, x1);
    let t = min128(y0, y1);
    let b = max128(y0, y1);
    let rad: i128 = if radius > 0 { radius as i128 } else { 0 };
    let corner = min128(4 * rad, min128(r - l, b - t));
    let ax = if 2 * sx >= l + r { 2 * sx - (l + r) } else { (l + r) - 2 * sx };
    let ay = if 2 * sy >= t + b { 2 * sy - (t + b) } else { (t + b) - 2 * sy };
    let qx = ax - ((r - l) - corner);
    let qy = ay - ((b - t) - corner);
    let half_stroke = 2 * sw;
    if qx > 0 || qy > 0 {
        let ox = max128(qx, 0);
        let oy = max128(qy, 0);
        proof {
            let k: int = 1073741824;
            lemma_mul_bound(ox as int, ox as int, k, k);
            lemma_mul_bound(oy as int, oy as int, k, k);
            lemma_mul_bound(corner as int, corner as int, k, k);
            lemma_mul_bound((corner + half_stroke) as int, (corner + half_stroke) as int, 17179869184, 17179869184);
            lemma_mul_bound((corner - half_stroke) as int, (corner - half_stroke) as int, 17179869184, 17179869184);
        }
        let d2 = ox * ox + oy * oy;
        if fill {
            d2 <= corner * corner
        } else {
            d2 <= (corner + half_stroke) * (corner + half_stroke) && (corner - half_stroke <= 0 || (corner
                - half_stroke) * (corner - half_stroke) <= d2)
        }
    } else {
        fill || corner - max128(qx, qy) <= half_stroke
    }
}

fn ellipse_fill_covers_exec(pts: &Vec<Point>, sx: i128, sy: i128) -> (covered: bool)
    requires
        pts.len() >= 2,
        points_in_range(pts@),
        in_half_bound(sx as int),
        in_half_bound(sy as int),
    ensures
        forall|sw: int| covered == #[trigger] ellipse_covers(pts@, true, sw, sx as int, sy as int),
{
    let p0 = pts[0];
    let p1 = pts[1];
    let x0: i128 = 2 * (p0[0] as i128);
    let y0: i128 = 2 * (p0[1] as i128);
    let x1: i128 = 2 * (p1[0] as i128);
    let y1: i128 = 2 * (p1[1] as i128);
    let l = min128(x0, x1);
    let r = max128(x0, x1);
    let t = min128(y0, y1);
    let b = max128(y0, y1);
    let rx = r - l;
    let ry = b - t;
    if rx <= 0 || ry <= 0 {
        return false;
    }
    let dx = 2 * sx - (l + r);
    let dy = 2 * sy - (t + b);
    proof {
        let k: int = 536870912;
        lemma_mul_bound(dx as int, dx as int, k, k);
        lemma_mul_bound(dy as int, dy as int, k, k);
        lemma_mul_bound(rx as int, rx as int, k, k);
        lemma_mul_bound(ry as int, ry as int, k, k);
        lemma_mul_bound((dx * dx) as int, ry as int, k * k, k);
        lemma_mul_bound((dx * dx * ry) as int, ry as int, k * k * k, k);
        lemma_mul_bound((dy * dy) as int, rx as int, k * k, k);
        lemma_mul_bound((dy * dy * rx) as int, rx as int, k * k * k, k);
        lemma_mul_bound((rx * rx) as int, ry as int, k * k, k);
        lemma_mul_bound((rx * rx * ry) as int, ry as int, k * k * k, k);
    }
    let n2 = dx * dx * ry * ry + dy * dy * rx * rx - rx * rx * ry * ry;
    n2 <= 0
}

fn path_covers_exec(pts: &Vec<Point>, closed: bool, sw: i128, sx: i128, sy: i128) -> (covered: bool)
    requires
        pts.len() >= 2,
        points_in_range(pts@),
        in_half_bound(sx as int),
        in_half_bound(sy as int),
        1 <= sw <= 2147483647,
    ensures
        covered == path_covers(pts@, closed, sw as int, sx as int, sy as int),
{
    if near_path_exec(pts, sx, sy, sw) {
        return true;
    }
    if closed {
        let n = pts.len();
        let last = pts[n - 1];
        let first = pts[0];
        return seg_within_exec(sx, sy, 2 * (last[0] as i128), 2 * (last[1] as i128), 2 * (first[0] as i128),
            2 * (first[1] as i128), sw);
    }
    false
}

/// Whether the object's filled region covers the centre of pixel `(x, y)`.
pub fn covers_pixel(o: &VectorObject, kind: Kind, sw: i32, x: usize, y: usize) -> (covered: bool)
    requires
        kind == spec_kind_of(o@.kind),
        o@.points.len() >= 1,
        points_in_range(o@.points),
        1 <= sw,
        x <= COORD_LIMIT,
        y <= COORD_LIMIT,
        !(kind == Kind::Ellipse && !o@.style.fill && o@.points.len() >= 2),
    ensures
        covered == covers(o@, sw as int, x as int, y as int),
{
    let pts = &o.points;
    let n = pts.len();
    let sx: i128 = 2 * (x as i128) + 1;
    let sy: i128 = 2 * (y as i128) + 1;
    let w: i128 = sw as i128;
    if kind == Kind::Pixel {
        let p0 = pts[0];
        let dx = sx - 2 * (p0[0] as i128);
        let dy = sy - 2 * (p0[1] as i128);
        proof {
            let k: int = 134217728;
            lemma_mul_bound(dx as int, dx as int, k, k);
            lemma_mul_bound(dy as int, dy as int, k, k);
            lemma_mul_bound(w as int, w as int, 2147483647, 2147483647);
        }
        dx * dx + dy * dy <= 4 * (w * w)
    } else if kind == Kind::Rect && n >= 2 {
        rect_covers_exec(pts, o.style.fill, w, sx, sy)
    } else if kind == Kind::RoundRect && n >= 2 {
        round_rect_covers_exec(pts, o.style.fill, o.style.radius, w, sx, sy)
    } else if kind == Kind::Ellipse && n >= 2 {
        let c = ellipse_fill_covers_exec(pts, sx, sy);
        assert(c == ellipse_covers(pts@, true, sw as int, sx as int, sy as int));
        c
    } else if kind == Kind::Polygon && n >= 3 {
        let filled = o.style.fill && polygon_contains_exec(pts, sx, sy);
        filled || near_polygon_exec(pts, sx, sy, w)
    } else if n >= 2 {
        path_covers_exec(pts, o.closed, w, sx, sy)
    } else {
        false
    }
}

/// The colour an object paints with; "clear" erases when the background is
/// transparent and paints white otherwise.
pub open spec fn spec_color_of(color: Seq<char>, transparent: bool) -> Pixel {
    if color == "white"@ {
        Pixel::White
    } else if color == "clear"@ {
        if transparent { Pixel::Transparent } else { Pixel::White }
    } else {
        Pixel::Black
    }
}

/// The stroke width of an object: its line width, at least one.
pub open spec fn stroke_width(o: ObjectView) -> int {
    if o.style.width < 1 { 1 } else { o.style.width as int }
}

/// The brush an object's outline is stamped with.
pub open spec fn brush_of(o: ObjectView, transparent: bool) -> Brush {
    Brush {
        color: spec_color_of(o.style.color@, transparent),
        xor: o.style.blend@ == "xor"@,
        radius: brush_radius_of(stroke_width(o)) as i64,
        dither: spec_dither_of(o.style.dither_pattern@),
    }
}

/// The pixels of the first `k` segments between consecutive points.
pub open spec fn segment_points(pts: Seq<Point>, k: int) -> Seq<(int, int)>
    decreases k,
{
    if k <= 0 {
        Seq::empty()
    } else {
        segment_points(pts, k - 1) + line_points(
            pts[k - 1][0] as int,
            pts[k - 1][1] as int,
            pts[k][0] as int,
            pts[k][1] as int,
        )
    }
}

/// The pixels of the segment from the last point back to the first.
pub open spec fn closing_points(pts: Seq<Point>) -> Seq<(int, int)> {
    line_points(
        pts[pts.len() - 1][0] as int,
        pts[pts.len() - 1][1] as int,
        pts[0][0] as int,
        pts[0][1] as int,
    )
}

/// Smallest coordinate on `axis` among the first `k` points (`k >= 1`).
pub open spec fn min_coord(pts: Seq<Point>, axis: int, k: int) -> int
    decreases k,
{
    if k <= 1 {
        pts[0][axis] as int
    } else {
        min_int(min_coord(pts, axis, k - 1), pts[k - 1][axis] as int)
    }
}

/// Largest coordinate on `axis` among the first `k` points (`k >= 1`).
pub open spec fn max_coord(pts: Seq<Point>, axis: int, k: int) -> int
    decreases k,
{
    if k <= 1 {
        pts[0][axis] as int
    } else {
        max_int(max_coord(pts, axis, k - 1), pts[k - 1][axis] as int)
    }
}

/// The first pixel column or row of the scan box on `axis`.
pub open spec fn box_lo(pts: Seq<Point>, axis: int) -> int {
    max_int(min_coord(pts, axis, pts.len() as int), 0)
}

/// The last pixel column or row of the scan box on `axis`, for an extent of
/// `size` pixels.
pub open spec fn box_hi(pts: Seq<Point>, axis: int, size: int) -> int {
    let m = max_coord(pts, axis, pts.len() as int);
    if m < 0 { 0 } else { min_int(m, size - 1) }
}

pub open spec fn box_empty(pts: Seq<Point>, w: int, h: int) -> bool {
    box_lo(pts, 0) > box_hi(pts, 0, w) || box_lo(pts, 1) > box_hi(pts, 1, h)
}

/// Whether the region scan paints buffer pixel `i`, counting only pixels
/// before `(cx, cy)` in row order.
pub open spec fn region_hits(i: int, w: int, h: int, o: ObjectView, b: Brush, cy: int, cx: int) -> bool {
    let px = i % w;
    let py = i / w;
    let pts = o.points;
    &&& 0 <= i < w * h
    &&& box_lo(pts, 0) <= px <= box_hi(pts, 0, w)
    &&& box_lo(pts, 1) <= py <= box_hi(pts, 1, h)
    &&& (py < cy || (py == cy && px < cx))
    &&& covers(o, stroke_width(o), px, py)
    &&& dither_mask(b.dither, px as usize, py as usize)
}

pub open spec fn region_upto(buf: Seq<Pixel>, w: int, h: int, o: ObjectView, b: Brush, cy: int, cx: int) -> Seq<Pixel> {
    Seq::new(
        buf.len(),
        |i: int|
            if region_hits(i, w, h, o, b, cy, cx) {
                spec_blend(buf[i], b.color, b.xor)
            } else {
                buf[i]
            },
    )
}

/// The buffer after painting every pixel of the scan box whose centre the
/// object covers.
pub open spec fn fill_region(buf: Seq<Pixel>, w: int, h: int, o: ObjectView, b: Brush) -> Seq<Pixel> {
    region_upto(buf, w, h, o, b, h, 0)
}

/// The buffer after rasterising an object and its children onto it.
pub open spec fn raster_object(buf: Seq<Pixel>, w: int, h: int, o: ObjectView, transparent: bool) -> Seq<Pixel>
    decreases o,
{
    if !o.visible || o.points.len() == 0 {
        buf
    } else {
        let k = spec_kind_of(o.kind);
        let pts = o.points;
        let n = pts.len() as int;
        let br = brush_of(o, transparent);
        if (k == Kind::Line || k == Kind::Polyline || k == Kind::Path) && n >= 2 {
            let b1 = stamp_all(buf, w, h, segment_points(pts, n - 1), br);
            let b2 = if o.closed && n > 2 { stamp_all(b1, w, h, closing_points(pts), br) } else { b1 };
            raster_children(b2, w, h, o.children, transparent)
        } else if k == Kind::Ellipse && !o.style.fill && n >= 2 {
            let b1 = stamp_all(
                buf,
                w,
                h,
                ellipse_points(pts[0][0] as int, pts[0][1] as int, pts[1][0] as int, pts[1][1] as int),
                br,
            );
            raster_children(b1, w, h, o.children, transparent)
        } else if box_empty(pts, w, h) {
            buf
        } else if k == Kind::Polygon && n >= 3 {
            let b1 = stamp_all(buf, w, h, segment_points(pts, n - 1) + closing_points(pts), br);
            if !o.style.fill {
                raster_children(b1, w, h, o.children, transparent)
            } else {
                raster_children(fill_region(b1, w, h, o, br), w, h, o.children, transparent)
            }
        } else {
            raster_children(fill_region(buf, w, h, o, br), w, h, o.children, transparent)
        }
    }
}

/// The buffer after rasterising each object in turn.
pub open spec fn raster_children(buf: Seq<Pixel>, w: int, h: int, cs: Seq<ObjectView>, transparent: bool) -> Seq<Pixel>
    decreases cs,
{
    if cs.len() == 0 {
        buf
    } else {
        raster_object(raster_children(buf, w, h, cs.drop_last(), transparent), w, h, cs.last(), transparent)
    }
}

/// Whether rasterising the object stays within the sizes the algorithms
/// handle: every unfilled ellipse that is drawn has radii the midpoint
/// algorithm can take.
pub open spec fn raster_safe(o: ObjectView, w: int, h: int) -> bool
    decreases o,
{
    if !o.visible || o.points.len() == 0 {
        true
    } else {
        let k = spec_kind_of(o.kind);
        let pts = o.points;
        let n = pts.len() as int;
        let lines = (k == Kind::Line || k == Kind::Polyline || k == Kind::Path) && n >= 2;
        let ellipse = k == Kind::Ellipse && !o.style.fill && n >= 2;
        &&& ellipse ==> abs_int(pts[1][0] - pts[0][0]) / 2 <= MAX_ELLIPSE_RADIUS && abs_int(
            pts[1][1] - pts[0][1],
        ) / 2 <= MAX_ELLIPSE_RADIUS
        &&& (lines || ellipse || !box_empty(pts, w, h)) ==> forall|i: int|
            0 <= i < o.children.len() ==> raster_safe(#[trigger] o.children[i], w, h)
    }
}

pub fn color_of(color: &str, transparent: bool) -> (p: Pixel)
    ensures
        p == spec_color_of(color@, transparent),
{
    if str_eq(color, "white") {
        Pixel::White
    } else if str_eq(color, "clear") {
        if transparent { Pixel::Transparent } else { Pixel::White }
    } else {
        Pixel::Black
    }
}

/// The brush an object's outline is stamped with.
pub fn object_brush(o: &VectorObject, transparent: bool) -> (b: Brush)
    ensures
        b == brush_of(o@, transparent),
        b.radius <= MAX_BRUSH_RADIUS,
{
    let sw: i32 = if o.style.width < 1 { 1 } else { o.style.width };
    Brush {
        color: color_of(o.style.color.as_str(), transparent),
        xor: str_eq(o.style.blend.as_str(), "xor"),
        radius: brush_radius(sw),
        dither: dither_of(o.style.dither_pattern.as_str()),
    }
}

/// Draws the first `k` segments between consecutive points.
fn draw_segments(pixels: &mut Vec<Pixel>, width: usize, height: usize, pts: &Vec<Point>, k: usize, brush: Brush)
    requires
        old(pixels)@.len() == width * height,
        k < pts.len(),
        brush.radius <= MAX_BRUSH_RADIUS,
    ensures
        final(pixels)@ == stamp_all(old(pixels)@, width as int, height as int, segment_points(pts@, k as int), brush),
        final(pixels)@.len() == old(pixels)@.len(),
{
    let ghost orig = pixels@;
    let mut i: usize = 0;
    proof {
        assert(segment_points(pts@, 0) =~= Seq::<(int, int)>::empty());
    }
    while i < k
        invariant
            i <= k,
            k < pts.len(),
            orig.len() == width * height,
            pixels@.len() == orig.len(),
            brush.radius <= MAX_BRUSH_RADIUS,
            pixels@ == stamp_all(orig, width as int, height as int, segment_points(pts@, i as int), brush),
        decreases k - i,
    {
        let a = pts[i];
        let b = pts[i + 1];
        proof {
            lemma_stamp_all_append(orig, width as int, height as int, segment_points(pts@, i as int),
                line_points(a[0] as int, a[1] as int, b[0] as int, b[1] as int), brush);
            lemma_stamp_all_len(orig, width as int, height as int, segment_points(pts@, (i + 1) as int), brush);
        }
        draw_raster_line(pixels, width, height, a[0], a[1], b[0], b[1], brush);
        i = i + 1;
    }
}

pub proof fn lemma_stamp_all_len(buf: Seq<Pixel>, w: int, h: int, pts: Seq<(int, int)>, b: Brush)
    ensures
        stamp_all(buf, w, h, pts, b).len() == buf.len(),
    decreases pts.len(),
{
    if pts.len() > 0 {
        lemma_stamp_all_len(stamp(buf, w, h, pts[0].0, pts[0].1, b), w, h, pts.drop_first(), b);
    }
}

/// The scan box of a point list on one axis: `(box_lo, box_hi)`.
fn scan_range(pts: &Vec<Point>, axis: usize, size: usize) -> (range: (usize, usize))
    requires
        pts.len() >= 1,
        axis < 2,
        size >= 1,
        points_in_range(pts@),
    ensures
        range.0 as int == box_lo(pts@, axis as int),
        range.1 as int == box_hi(pts@, axis as int, size as int),
        box_hi(pts@, axis as int, size as int) <= COORD_LIMIT,
        box_lo(pts@, axis as int) <= COORD_LIMIT,
{
    proof {
        assert(-COORD_LIMIT <= pts@[0][0] <= COORD_LIMIT);
        assert(-COORD_LIMIT <= pts@[0][1] <= COORD_LIMIT);
    }
    let mut lo: i32 = pts[0][axis];
    let mut hi: i32 = pts[0][axis];
    let mut i: usize = 1;
    while i < pts.len()
        invariant
            1 <= i <= pts.len(),
            axis < 2,
            points_in_range(pts@),
            lo as int == min_coord(pts@, axis as int, i as int),
            hi as int == max_coord(pts@, axis as int, i as int),
            -COORD_LIMIT <= lo <= COORD_LIMIT,
            -COORD_LIMIT <= hi <= COORD_LIMIT,
        decreases pts.len() - i,
    {
        proof {
            assert(-COORD_LIMIT <= pts@[i as int][0] <= COORD_LIMIT);
            assert(-COORD_LIMIT <= pts@[i as int][1] <= COORD_LIMIT);
        }
        let v = pts[i][axis];
        if v < lo {
            lo = v;
        }
        if v > hi {
            hi = v;
        }
        i = i + 1;
    }
    let l: usize = if lo < 0 { 0 } else { lo as usize };
    let h: usize = if hi < 0 {
        0
    } else if (hi as usize) < size - 1 {
        hi as usize
    } else {
        size - 1
    };
    (l, h)
}

/// Paints every pixel of the scan box whose centre the object covers.
fn fill_region_exec(pixels: &mut Vec<Pixel>, width: usize, height: usize, o: &VectorObject, kind: Kind, brush: Brush, transparent: bool)
    requires
        old(pixels)@.len() == width * height,
        width >= 1,
        height >= 1,
        o@.points.len() >= 1,
        points_in_range(o@.points),
        kind == spec_kind_of(o@.kind),
        brush == brush_of(o@, transparent),
        !(kind == Kind::Ellipse && !o@.style.fill && o@.points.len() >= 2),
        !box_empty(o@.points, width as int, height as int),
    ensures
        final(pixels)@ == fill_region(old(pixels)@, width as int, height as int, o@, brush),
{
    let ghost orig = pixels@;
    let ghost w = width as int;
    let ghost h = height as int;
    let ghost ov = o@;
    let sw: i32 = if o.style.width < 1 { 1 } else { o.style.width };
    let (lx, hx) = scan_range(&o.points, 0, width);
    let (ly, hy) = scan_range(&o.points, 1, height);
    let mut y: usize = ly;
    while y <= hy
        invariant
            ly <= y <= hy + 1,
            lx <= hx,
            lx as int == box_lo(ov.points, 0),
            hx as int == box_hi(ov.points, 0, w),
            ly as int == box_lo(ov.points, 1),
            hy as int == box_hi(ov.points, 1, h),
            hx <= COORD_LIMIT,
            hy <= COORD_LIMIT,
            hx < width,
            hy < height,
            w == width,
            h == height,
            ov == o@,
            sw as int == stroke_width(ov),
            orig.len() == w * h,
            kind == spec_kind_of(ov.kind),
            ov.points.len() >= 1,
            points_in_range(ov.points),
            !(kind == Kind::Ellipse && !ov.style.fill && ov.points.len() >= 2),
            pixels@ == region_upto(orig, w, h, ov, brush, y as int, lx as int),
        decreases hy + 1 - y,
    {
        let mut x: usize = lx;
        while x <= hx
            invariant
                ly <= y <= hy,
                lx <= x <= hx + 1,
                lx as int == box_lo(ov.points, 0),
                hx as int == box_hi(ov.points, 0, w),
                ly as int == box_lo(ov.points, 1),
                hy as int == box_hi(ov.points, 1, h),
                hx <= COORD_LIMIT,
                hy <= COORD_LIMIT,
                hx < width,
                hy < height,
                w == width,
                h == height,
                ov == o@,
                sw as int == stroke_width(ov),
                orig.len() == w * h,
                kind == spec_kind_of(ov.kind),
                ov.points.len() >= 1,
                points_in_range(ov.points),
                !(kind == Kind::Ellipse && !ov.style.fill && ov.points.len() >= 2),
                pixels@ == region_upto(orig, w, h, ov, brush, y as int, x as int),
            decreases hx + 1 - x,
        {
            let mut target: Option<usize> = None;
            if covers_pixel(o, kind, sw, x, y) && dither_allows(brush.dither, x, y) {
                proof {
                    lemma_index_join(x as int, y as int, w, h);
                    assert(pixels@.len() == orig.len());
                    assert((y as int) * (width as int) + (x as int) < pixels.len());
                }
                let index = y * width + x;
                let current = pixels[index];
                pixels.set(index, blend_pixel(current, brush.color, brush.xor));
                target = Some(index);
            }
            proof {
                let next = region_upto(orig, w, h, ov, brush, y as int, x + 1);
                assert forall|i: int| 0 <= i < orig.len() implies #[trigger] pixels@[i] == next[i] by {
                    lemma_index_split(i, w, h);
                    if i % w == x && i / w == y {
                        lemma_index_join(x as int, y as int, w, h);
                    } else if let Some(t) = target {
                        lemma_index_join(x as int, y as int, w, h);
                        assert(t != i);
                    }
                }
                assert(pixels@ =~= next);
            }
            x = x + 1;
        }
        proof {
            let a = region_upto(orig, w, h, ov, brush, y as int, hx + 1);
            let b = region_upto(orig, w, h, ov, brush, y + 1, lx as int);
            assert forall|i: int| 0 <= i < orig.len() implies a[i] == b[i] by {
                lemma_index_split(i, w, h);
            }
            assert(a =~= b);
        }
        y = y + 1;
    }
    proof {
        let a = region_upto(orig, w, h, ov, brush, hy + 1, lx as int);
        let b = fill_region(orig, w, h, ov, brush);
        assert forall|i: int| 0 <= i < orig.len() implies a[i] == b[i] by {
            lemma_index_split(i, w, h);
        }
        assert(a =~= b);
    }
}

/// Rasterises an object and, after it, its children onto a `width` x
/// `height` pixel buffer.
pub fn rasterize_object(pixels: &mut Vec<Pixel>, width: usize, height: usize, object: &VectorObject, transparent_background: bool)
    requires
        old(pixels)@.len() == width * height,
        width >= 1,
        height >= 1,
        object_in_range(object@),
        raster_safe(object@, width as int, height as int),
    ensures
        final(pixels)@ == raster_object(old(pixels)@, width as int, height as int, object@, transparent_background),
        final(pixels)@.len() == old(pixels)@.len(),
    decreases object,
{
    let ghost orig = pixels@;
    let ghost w = width as int;
    let ghost h = height as int;
    let ghost ov = object@;
    if !object.visible || object.points.len() == 0 {
        return;
    }
    let kind = kind_of(object.kind.as_str());
    let pts = &object.points;
    let n = pts.len();
    let brush = object_brush(object, transparent_background);
    let mut draw_children = true;
    proof {
        assert(points_in_range(ov.points));
    }
    if (kind == Kind::Line || kind == Kind::Polyline || kind == Kind::Path) && n >= 2 {
        draw_segments(pixels, width, height, pts, n - 1, brush);
        if object.closed && n > 2 {
            let last = pts[n - 1];
            let first = pts[0];
            draw_raster_line(pixels, width, height, last[0], last[1], first[0], first[1], brush);
        }
    } else if kind == Kind::Ellipse && !object.style.fill && n >= 2 {
        let a = pts[0];
        let b = pts[1];
        draw_raster_ellipse(pixels, width, height, [a[0], a[1], b[0], b[1]], brush);
    } else {
        let (lx, hx) = scan_range(pts, 0, width);
        let (ly, hy) = scan_range(pts, 1, height);
        if lx > hx || ly > hy {
            draw_children = false;
        } else {
            let polygon = kind == Kind::Polygon && n >= 3;
            if polygon {
                let ghost b0 = pixels@;
                draw_segments(pixels, width, height, pts, n - 1, brush);
                let last = pts[n - 1];
                let first = pts[0];
                draw_raster_line(pixels, width, height, last[0], last[1], first[0], first[1], brush);
                proof {
                    lemma_stamp_all_append(b0, w, h, segment_points(ov.points, n - 1), closing_points(ov.points), brush);
                }
            }
            if !polygon || object.style.fill {
                fill_region_exec(pixels, width, height, object, kind, brush, transparent_background);
            }
        }
    }
    if !draw_children {
        return;
    }
    let ghost mid = pixels@;
    proof {
        lemma_object_views_all(object.children@);
        assert(raster_object(orig, w, h, ov, transparent_background) == raster_children(mid, w, h, ov.children, transparent_background));
        assert(ov.children.take(0) =~= Seq::<ObjectView>::empty());
    }
    let mut i: usize = 0;
    while i < object.children.len()
        invariant
            i <= object.children.len(),
            ov == object@,
            w == width,
            h == height,
            width >= 1,
            height >= 1,
            object_views(object.children@).len() == object.children.len(),
            forall|j: int| 0 <= j < object.children.len() ==> #[trigger] object_views(object.children@)[j] == object_view(object.children@[j]),
            forall|j: int| 0 <= j < ov.children.len() ==> object_in_range(#[trigger] ov.children[j]),
            forall|j: int| 0 <= j < ov.children.len() ==> raster_safe(#[trigger] ov.children[j], w, h),
            mid.len() == w * h,
            pixels@.len() == mid.len(),
            pixels@ == raster_children(mid, w, h, ov.children.take(i as int), transparent_background),
        decreases object.children.len() - i,
    {
        let ghost before = pixels@;
        proof {
            assert(object_views(object.children@)[i as int] == object_view(object.children@[i as int]));
            assert(ov.children[i as int] == object.children@[i as int]@);
        }
        rasterize_object(pixels, width, height, &object.children[i], transparent_background);
        proof {
            assert(ov.children.take(i + 1).drop_last() =~= ov.children.take(i as int));
            assert(ov.children.take(i + 1).last() == object.children@[i as int]@);
        }
        i = i + 1;
    }
    proof {
        assert(ov.children.take(i as int) =~= ov.children);
    }
}

/// The buffer after rasterising the objects of each visible layer in turn.
pub open spec fn raster_layers(buf: Seq<Pixel>, w: int, h: int, layers: Seq<LayerView>, transparent: bool) -> Seq<Pixel>
    decreases layers.len(),
{
    if layers.len() == 0 {
        buf
    } else {
        let b = raster_layers(buf, w, h, layers.drop_last(), transparent);
        if layers.last().visible {
            raster_children(b, w, h, layers.last().objects, transparent)
        } else {
            b
        }
    }
}

/// The width of the preview of a document: its target width, at least one.
pub open spec fn preview_width(d: DocumentView) -> int {
    if d.target.width < 1 { 1 } else { d.target.width as int }
}

/// The height of the preview of a document: its target height, at least one.
pub open spec fn preview_height(d: DocumentView) -> int {
    if d.target.height < 1 { 1 } else { d.target.height as int }
}

/// The 1-bit preview of a document over a background, row by row.
pub open spec fn spec_pixel_preview(d: DocumentView, background: Pixel, transparent: bool) -> Seq<Pixel> {
    let w = preview_width(d);
    let h = preview_height(d);
    raster_layers(Seq::new((w * h) as nat, |i: int| background), w, h, d.layers, transparent)
}

/// Whether every object of every visible layer can be rasterised.
pub open spec fn document_raster_safe(d: DocumentView) -> bool {
    forall|l: int, i: int|
        0 <= l < d.layers.len() && d.layers[l].visible && 0 <= i < d.layers[l].objects.len() ==> raster_safe(
            #[trigger] d.layers[l].objects[i],
            preview_width(d),
            preview_height(d),
        )
}

/// Rasterises the visible layers of a document over a background into a
/// row-major pixel buffer of its target size.
pub fn pixel_preview_with_background(doc: &Document, background: Pixel, transparent_background: bool) -> (pixels: Vec<Pixel>)
    requires
        document_in_range(doc@),
        document_raster_safe(doc@),
        preview_width(doc@) * preview_height(doc@) <= usize::MAX,
    ensures
        pixels@ == spec_pixel_preview(doc@, background, transparent_background),
{
    let ghost d = doc@;
    let width: usize = if doc.target.width < 1 { 1 } else { doc.target.width as usize };
    let height: usize = if doc.target.height < 1 { 1 } else { doc.target.height as usize };
    let ghost w = width as int;
    let ghost h = height as int;
    assert(0 <= w * h) by (nonlinear_arith)
        requires
            w >= 1,
            h >= 1,
    ;
    let total = width * height;
    let mut pixels: Vec<Pixel> = Vec::new();
    let mut k: usize = 0;
    while k < total
        invariant
            k <= total,
            pixels@ =~= Seq::new(k as nat, |i: int| background),
        decreases total - k,
    {
        pixels.push(background);
        k = k + 1;
    }
    let ghost start = pixels@;
    proof {
        assert(d.layers.take(0) =~= Seq::<LayerView>::empty());
    }
    let mut l: usize = 0;
    while l < doc.layers.len()
        invariant
            l <= doc.layers.len(),
            d == doc@,
            w == width,
            h == height,
            w == preview_width(d),
            h == preview_height(d),
            width >= 1,
            height >= 1,
            start.len() == w * h,
            pixels@.len() == start.len(),
            document_in_range(d),
            document_raster_safe(d),
            pixels@ == raster_layers(start, w, h, d.layers.take(l as int), transparent_background),
        decreases doc.layers.len() - l,
    {
        let layer = &doc.layers[l];
        let ghost lv = d.layers[l as int];
        let ghost before = pixels@;
        proof {
            assert(lv == layer@);
            lemma_object_views_all(layer.objects@);
            assert(d.layers.take(l + 1).drop_last() =~= d.layers.take(l as int));
            assert(d.layers.take(l + 1).last() == lv);
        }
        if layer.visible {
            let mut i: usize = 0;
            proof {
                assert(lv.objects.take(0) =~= Seq::<ObjectView>::empty());
            }
            while i < layer.objects.len()
                invariant
                    i <= layer.objects.len(),
                    lv == layer@,
                    lv == d.layers[l as int],
                    lv.visible,
                    0 <= l < d.layers.len(),
                    w == width,
                    h == height,
                    w == preview_width(d),
                    h == preview_height(d),
                    width >= 1,
                    height >= 1,
                    document_in_range(d),
                    document_raster_safe(d),
                    object_views(layer.objects@).len() == layer.objects.len(),
                    forall|j: int| 0 <= j < layer.objects.len() ==> #[trigger] object_views(layer.objects@)[j] == object_view(layer.objects@[j]),
                    before.len() == w * h,
                    pixels@.len() == before.len(),
                    pixels@ == raster_children(before, w, h, lv.objects.take(i as int), transparent_background),
                decreases layer.objects.len() - i,
            {
                proof {
                    assert(object_views(layer.objects@)[i as int] == object_view(layer.objects@[i as int]));
                    assert(lv.objects[i as int] == layer.objects@[i as int]@);
                    assert(object_in_range(d.layers[l as int].objects[i as int]));
                    assert(raster_safe(d.layers[l as int].objects[i as int], w, h));
                }
                rasterize_object(&mut pixels, width, height, &layer.objects[i], transparent_background);
                proof {
                    assert(lv.objects.take(i + 1).drop_last() =~= lv.objects.take(i as int));
                }
                i = i + 1;
            }
            proof {
                assert(lv.objects.take(i as int) =~= lv.objects);
            }
        }
        l = l + 1;
    }
    proof {
        assert(d.layers.take(l as int) =~= d.layers);
        assert(start =~= Seq::new((w * h) as nat, |i: int| background));
    }
    pixels
}

/// The RGBA bytes of a pixel, with premultiplied alpha.
pub open spec fn pixel_rgba(p: Pixel) -> Seq<u8> {
    match p {
        Pixel::Black => seq![0u8, 0u8, 0u8, 255u8],
        Pixel::White => seq![255u8, 255u8, 255u8, 255u8],
        Pixel::Transparent => seq![0u8, 0u8, 0u8, 0u8],
    }
}

/// The RGBA bytes of a pixel buffer, four per pixel in order.
pub fn pixels_to_rgba(pixels: &Vec<Pixel>) -> (bytes: Vec<u8>)
    requires
        pixels.len() * 4 <= usize::MAX,
    ensures
        bytes@.len() == pixels@.len() * 4,
        forall|i: int, c: int| 0 <= i < pixels@.len() && 0 <= c < 4 ==> #[trigger] bytes@[i * 4 + c] == pixel_rgba(pixels@[i])[c],
{
    let mut bytes: Vec<u8> = Vec::new();
    let mut i: usize = 0;
    while i < pixels.len()
        invariant
            i <= pixels.len(),
            bytes@.len() == i * 4,
            forall|j: int, c: int| 0 <= j < i && 0 <= c < 4 ==> #[trigger] bytes@[j * 4 + c] == pixel_rgba(pixels@[j])[c],
        decreases pixels.len() - i,
    {
        let (r, g, b, a): (u8, u8, u8, u8) = match pixels[i] {
            Pixel::Black => (0, 0, 0, 255),
            Pixel::White => (255, 255, 255, 255),
            Pixel::Transparent => (0, 0, 0, 0),
        };
        let ghost old_bytes = bytes@;
        bytes.push(r);
        bytes.push(g);
        bytes.push(b);
        bytes.push(a);
        proof {
            assert forall|j: int, c: int| 0 <= j < i + 1 && 0 <= c < 4 implies #[trigger] bytes@[j * 4 + c] == pixel_rgba(pixels@[j])[c] by {
                if j < i {
                    assert(j * 4 + c < i * 4) by (nonlinear_arith)
                        requires
                            j < i,
                            0 <= c < 4,
                    ;
                    assert(bytes@[j * 4 + c] == old_bytes[j * 4 + c]);
                } else {
                    assert(j * 4 + c == i * 4 + c);
                }
            }
        }
        i = i + 1;
    }
    bytes
}


/// Whether every point of the object and of its descendants lies within
/// `COORD_LIMIT`.
pub fn object_in_range_check(o: &VectorObject) -> (ok: bool)
    ensures
        ok == object_in_range(o@),
    decreases o,
{
    let mut i: usize = 0;
    while i < o.points.len()
        invariant
            i <= o.points.len(),
            forall|k: int| 0 <= k < i ==> -COORD_LIMIT <= #[trigger] o.points@[k][0] <= COORD_LIMIT
                && -COORD_LIMIT <= o.points@[k][1] <= COORD_LIMIT,
        decreases o.points.len() - i,
    {
        let p = o.points[i];
        if p[0] < -COORD_LIMIT || p[0] > COORD_LIMIT || p[1] < -COORD_LIMIT || p[1] > COORD_LIMIT {
            proof {
                assert(o@.points[i as int] == p);
                assert(!(-COORD_LIMIT <= o@.points[i as int][0] <= COORD_LIMIT && -COORD_LIMIT <= o@.points[i as int][1] <= COORD_LIMIT));
            }
            return false;
        }
        i += 1;
    }
    proof {
        lemma_object_views_all(o.children@);
    }
    let mut j: usize = 0;
    while j < o.children.len()
        invariant
            j <= o.children.len(),
            object_views(o.children@).len() == o.children.len(),
            forall|k: int| 0 <= k < o.children.len() ==> #[trigger] object_views(o.children@)[k] == object_view(o.children@[k]),
            forall|k: int| 0 <= k < j ==> object_in_range(#[trigger] o@.children[k]),
        decreases o.children.len() - j,
    {
        proof {
            assert(object_views(o.children@)[j as int] == object_view(o.children@[j as int]));
        }
        if !object_in_range_check(&o.children[j]) {
            proof {
                assert(!object_in_range(o@.children[j as int]));
            }
            return false;
        }
        j += 1;
    }
    true
}

/// Whether the object, drawn into a `w` by `h` buffer, stays within the
/// sizes the rasteriser handles.
pub fn raster_safe_check(o: &VectorObject, w: usize, h: usize) -> (ok: bool)
    requires
        object_in_range(o@),
        w >= 1,
        h >= 1,
    ensures
        ok == raster_safe(o@, w as int, h as int),
    decreases o,
{
    if !o.visible || o.points.len() == 0 {
        return true;
    }
    let ghost ov = o@;
    proof {
        assert(points_in_range(ov.points));
    }
    let kind = kind_of(o.kind.as_str());
    let n = o.points.len();
    let lines = (kind == Kind::Line || kind == Kind::Polyline || kind == Kind::Path) && n >= 2;
    let ellipse = kind == Kind::Ellipse && !o.style.fill && n >= 2;
    if ellipse {
        let dx = o.points[1][0] as i64 - o.points[0][0] as i64;
        let dy = o.points[1][1] as i64 - o.points[0][1] as i64;
        let ax = if dx < 0 { -dx } else { dx };
        let ay = if dy < 0 { -dy } else { dy };
        if ax / 2 > MAX_ELLIPSE_RADIUS as i64 || ay / 2 > MAX_ELLIPSE_RADIUS as i64 {
            proof {
                assert(ov.points[0] == o.points@[0] && ov.points[1] == o.points@[1]);
            }
            return false;
        }
    }
    let children_drawn = if lines || ellipse {
        true
    } else {
        let (lx, hx) = scan_range(&o.points, 0, w);
        let (ly, hy) = scan_range(&o.points, 1, h);
        !(lx > hx || ly > hy)
    };
    if !children_drawn {
        return true;
    }
    proof {
        lemma_object_views_all(o.children@);
        assert(lines || ellipse || !box_empty(ov.points, w as int, h as int));
    }
    let mut j: usize = 0;
    while j < o.children.len()
        invariant
            j <= o.children.len(),
            ov == o@,
            w >= 1,
            h >= 1,
            object_views(o.children@).len() == o.children.len(),
            forall|k: int| 0 <= k < o.children.len() ==> #[trigger] object_views(o.children@)[k] == object_view(o.children@[k]),
            forall|k: int| 0 <= k < ov.children.len() ==> object_in_range(#[trigger] ov.children[k]),
            forall|k: int| 0 <= k < j ==> raster_safe(#[trigger] ov.children[k], w as int, h as int),
            ov.visible && ov.points.len() > 0,
            ({
                let k = spec_kind_of(ov.kind);
                let n = ov.points.len() as int;
                let lines = (k == Kind::Line || k == Kind::Polyline || k == Kind::Path) && n >= 2;
                let ellipse = k == Kind::Ellipse && !ov.style.fill && n >= 2;
                &&& ellipse ==> abs_int(ov.points[1][0] - ov.points[0][0]) / 2 <= MAX_ELLIPSE_RADIUS && abs_int(
                    ov.points[1][1] - ov.points[0][1],
                ) / 2 <= MAX_ELLIPSE_RADIUS
                &&& (lines || ellipse || !box_empty(ov.points, w as int, h as int))
            }),
        decreases o.children.len() - j,
    {
        proof {
            assert(object_views(o.children@)[j as int] == object_view(o.children@[j as int]));
            assert(object_in_range(ov.children[j as int]));
        }
        if !raster_safe_check(&o.children[j], w, h) {
            proof {
                assert(!raster_safe(ov.children[j as int], w as int, h as int));
            }
            return false;
        }
        j += 1;
    }
    true
}

/// Whether the preview of a document can be drawn: every point within
/// `COORD_LIMIT`, every drawn shape within the rasteriser's sizes, and a
/// buffer size that fits in memory addresses.
pub fn document_renderable(doc: &Document) -> (ok: bool)
    ensures
        ok == (document_in_range(doc@) && document_raster_safe(doc@)
            && preview_width(doc@) * preview_height(doc@) <= usize::MAX),
{
    let ghost d = doc@;
    let width: usize = if doc.target.width < 1 { 1 } else { doc.target.width as usize };
    let height: usize = if doc.target.height < 1 { 1 } else { doc.target.height as usize };
    let fits = width.checked_mul(height).is_some();
    let mut l: usize = 0;
    while l < doc.layers.len()
        invariant
            l <= doc.layers.len(),
            d == doc@,
            width as int == preview_width(d),
            height as int == preview_height(d),
            width >= 1,
            height >= 1,
            forall|a: int, i: int| 0 <= a < l && 0 <= i < d.layers[a].objects.len() ==> object_in_range(#[trigger] d.layers[a].objects[i]),
            forall|a: int, i: int| 0 <= a < l && d.layers[a].visible && 0 <= i < d.layers[a].objects.len() ==> raster_safe(
                #[trigger] d.layers[a].objects[i], width as int, height as int),
        decreases doc.layers.len() - l,
    {
        let layer = &doc.layers[l];
        proof {
            assert(d.layers[l as int] == layer@);
            lemma_object_views_all(layer.objects@);
        }
        let mut i: usize = 0;
        while i < layer.objects.len()
            invariant
                i <= layer.objects.len(),
                d == doc@,
                width as int == preview_width(d),
                height as int == preview_height(d),
                d.layers[l as int] == layer@,
                l < d.layers.len(),
                width >= 1,
                height >= 1,
                object_views(layer.objects@).len() == layer.objects.len(),
                forall|k: int| 0 <= k < layer.objects.len() ==> #[trigger] object_views(layer.objects@)[k] == object_view(layer.objects@[k]),
                forall|k: int| 0 <= k < i ==> object_in_range(#[trigger] d.layers[l as int].objects[k]),
                forall|k: int| 0 <= k < i && d.layers[l as int].visible ==> raster_safe(#[trigger] d.layers[l as int].objects[k], width as int, height as int),
            decreases layer.objects.len() - i,
        {
            proof {
                assert(object_views(layer.objects@)[i as int] == object_view(layer.objects@[i as int]));
            }
            if !object_in_range_check(&layer.objects[i]) {
                proof {
                    assert(d.layers[l as int].objects[i as int] == layer.objects@[i as int]@);
                    assert(!object_in_range(d.layers[l as int].objects[i as int]));
                }
                return false;
            }
            if layer.visible && !raster_safe_check(&layer.objects[i], width, height) {
                proof {
                    assert(d.layers[l as int].objects[i as int] == layer.objects@[i as int]@);
                    assert(!raster_safe(d.layers[l as int].objects[i as int], width as int, height as int));
                }
                return false;
            }
            i += 1;
        }
        l += 1;
    }
    fits
}

/// The 1-bit preview of a document over white, or `None` where the document
/// cannot be drawn (see `document_renderable`).
pub fn pixel_preview(doc: &Document) -> (pixels: Option<Vec<Pixel>>)
    ensures
        pixels is Some <==> (document_in_range(doc@) && document_raster_safe(doc@)
            && preview_width(doc@) * preview_height(doc@) <= usize::MAX),
        pixels matches Some(p) ==> p@ == spec_pixel_preview(doc@, Pixel::White, false),
{
    if document_renderable(doc) {
        Some(pixel_preview_with_background(doc, Pixel::White, false))
    } else {
        None
    }
}


/// Drawing the same black or white color twice in XOR mode gives back the
/// pixel that was there.
pub proof fn law_xor_twice_restores(p: Pixel, c: Pixel)
    requires
        p != Pixel::Transparent,
        c != Pixel::Transparent,
    ensures
        spec_blend(spec_blend(p, c, true), c, true) == p,
{
}

/// A hidden object, or one without points, leaves the pixels as they are.
pub proof fn law_hidden_object_draws_nothing(buf: Seq<Pixel>, w: int, h: int, o: ObjectView, transparent: bool)
    requires
        !o.visible || o.points.len() == 0,
    ensures
        raster_object(buf, w, h, o, transparent) == buf,
{
}

/// Hidden layers leave the pixels as they are.
pub proof fn law_hidden_layers_draw_nothing(buf: Seq<Pixel>, w: int, h: int, layers: Seq<LayerView>, transparent: bool)
    requires
        forall|l: int| 0 <= l < layers.len() ==> !(#[trigger] layers[l]).visible,
    ensures
        raster_layers(buf, w, h, layers, transparent) == buf,
    decreases layers.len(),
{
    if layers.len() > 0 {
        law_hidden_layers_draw_nothing(buf, w, h, layers.drop_last(), transparent);
        assert(!layers.last().visible);
    }
}

/// Without a dither pattern ("none"), every pixel may be drawn.
pub proof fn law_no_dither_draws_every_pixel(x: usize, y: usize)
    ensures
        dither_mask(spec_dither_of("none"@), x, y),
{
    reveal_strlit("none");
    reveal_strlit("diagonal_line");
    reveal_strlit("vertical_line");
    reveal_strlit("horizontal_line");
    reveal_strlit("screen");
    reveal_strlit("bayer_2x2");
    reveal_strlit("bayer_4x4");
    reveal_strlit("bayer_8x8");
    reveal_strlit("floyd_steinberg");
    reveal_strlit("burkes");
    reveal_strlit("atkinson");
    assert("none"@.len() == 4);
    assert("screen"@.len() == 6);
    assert("burkes"@.len() == 6);
    assert("atkinson"@.len() == 8);
    assert("bayer_2x2"@.len() == 9);
    assert("bayer_4x4"@.len() == 9);
    assert("bayer_8x8"@.len() == 9);
    assert("diagonal_line"@.len() == 13);
    assert("vertical_line"@.len() == 13);
    assert("horizontal_line"@.len() == 15);
    assert("floyd_steinberg"@.len() == 15);
    assert(spec_dither_of("none"@) == Dither::Solid);
}


/// Whether every pixel that differs between `before` and `after` holds the
/// brush's blend of its old value, at a pixel the brush's dither pattern lets
/// through (`w` is the buffer's width).
pub open spec fn changes_are_blends(before: Seq<Pixel>, after: Seq<Pixel>, w: int, b: Brush) -> bool {
    &&& after.len() == before.len()
    &&& forall|i: int|
        0 <= i < after.len() && #[trigger] after[i] != before[i] ==> after[i] == spec_blend(before[i], b.color, b.xor)
            && dither_mask(b.dither, (i % w) as usize, (i / w) as usize)
}

/// Whether an XOR brush finds only black and white pixels in `buf`.
pub open spec fn xor_sees_black_and_white(buf: Seq<Pixel>, b: Brush) -> bool {
    b.xor ==> forall|i: int| 0 <= i < buf.len() ==> #[trigger] buf[i] == Pixel::Black || buf[i] == Pixel::White
}

/// Whether each pixel of `after` is that of `before` or, at a pixel the
/// dither pattern lets through, its blend with the brush.
spec fn painted_once(before: Seq<Pixel>, after: Seq<Pixel>, w: int, b: Brush) -> bool {
    &&& after.len() == before.len()
    &&& forall|i: int|
        0 <= i < after.len() ==> #[trigger] after[i] == before[i] || (after[i] == spec_blend(before[i], b.color, b.xor)
            && dither_mask(b.dither, (i % w) as usize, (i / w) as usize))
}

proof fn lemma_paint_again(orig: Seq<Pixel>, buf: Seq<Pixel>, next: Seq<Pixel>, w: int, b: Brush)
    requires
        changes_are_blends(orig, buf, w, b),
        painted_once(buf, next, w, b),
        xor_sees_black_and_white(orig, b),
    ensures
        changes_are_blends(orig, next, w, b),
{
    assert forall|i: int| 0 <= i < next.len() && #[trigger] next[i] != orig[i] implies next[i] == spec_blend(orig[i], b.color, b.xor)
        && dither_mask(b.dither, (i % w) as usize, (i / w) as usize) by {
        if next[i] != buf[i] && buf[i] != orig[i] {
            assert(buf[i] == spec_blend(orig[i], b.color, b.xor));
            if b.xor {
                assert(orig[i] == Pixel::Black || orig[i] == Pixel::White);
            }
        }
    }
}

proof fn lemma_stamp_paints_once(buf: Seq<Pixel>, w: int, h: int, x: int, y: int, b: Brush)
    ensures
        painted_once(buf, stamp(buf, w, h, x, y, b), w, b),
{
}

proof fn lemma_region_paints_once(buf: Seq<Pixel>, w: int, h: int, o: ObjectView, b: Brush)
    ensures
        painted_once(buf, fill_region(buf, w, h, o, b), w, b),
{
}

proof fn lemma_stamp_all_blends(orig: Seq<Pixel>, buf: Seq<Pixel>, w: int, h: int, pts: Seq<(int, int)>, b: Brush)
    requires
        changes_are_blends(orig, buf, w, b),
        xor_sees_black_and_white(orig, b),
    ensures
        changes_are_blends(orig, stamp_all(buf, w, h, pts, b), w, b),
    decreases pts.len(),
{
    if pts.len() > 0 {
        let next = stamp(buf, w, h, pts[0].0, pts[0].1, b);
        lemma_stamp_paints_once(buf, w, h, pts[0].0, pts[0].1, b);
        lemma_paint_again(orig, buf, next, w, b);
        lemma_stamp_all_blends(orig, next, w, h, pts.drop_first(), b);
    }
}

/// Rasterising an object without children changes a pixel only to the blend
/// of its old value with the object's colour, in the object's blend mode, and
/// only where the object's dither pattern lets the pixel through; in XOR mode
/// this holds where the buffer was black and white to begin with.
pub proof fn law_changed_pixels_are_blends(buf: Seq<Pixel>, w: int, h: int, o: ObjectView, transparent: bool)
    requires
        o.children.len() == 0,
        o.style.blend@ == "xor"@ ==> forall|i: int| 0 <= i < buf.len() ==> #[trigger] buf[i] == Pixel::Black || buf[i] == Pixel::White,
    ensures
        raster_object(buf, w, h, o, transparent).len() == buf.len(),
        forall|i: int|
            0 <= i < buf.len() && #[trigger] raster_object(buf, w, h, o, transparent)[i] != buf[i] ==> {
                &&& raster_object(buf, w, h, o, transparent)[i] == spec_blend(
                    buf[i],
                    spec_color_of(o.style.color@, transparent),
                    o.style.blend@ == "xor"@,
                )
                &&& dither_mask(spec_dither_of(o.style.dither_pattern@), (i % w) as usize, (i / w) as usize)
            },
{
    let b = brush_of(o, transparent);
    assert(changes_are_blends(buf, buf, w, b));
    if !o.visible || o.points.len() == 0 {
        return;
    }
    let k = spec_kind_of(o.kind);
    let pts = o.points;
    let n = pts.len() as int;
    assert(o.children =~= Seq::<ObjectView>::empty());
    if (k == Kind::Line || k == Kind::Polyline || k == Kind::Path) && n >= 2 {
        let b1 = stamp_all(buf, w, h, segment_points(pts, n - 1), b);
        lemma_stamp_all_blends(buf, buf, w, h, segment_points(pts, n - 1), b);
        if o.closed && n > 2 {
            lemma_stamp_all_blends(buf, b1, w, h, closing_points(pts), b);
        }
    } else if k == Kind::Ellipse && !o.style.fill && n >= 2 {
        lemma_stamp_all_blends(
            buf,
            buf,
            w,
            h,
            ellipse_points(pts[0][0] as int, pts[0][1] as int, pts[1][0] as int, pts[1][1] as int),
            b,
        );
    } else if box_empty(pts, w, h) {
    } else if k == Kind::Polygon && n >= 3 {
        let b1 = stamp_all(buf, w, h, segment_points(pts, n - 1) + closing_points(pts), b);
        lemma_stamp_all_blends(buf, buf, w, h, segment_points(pts, n - 1) + closing_points(pts), b);
        if o.style.fill {
            lemma_region_paints_once(b1, w, h, o, b);
            lemma_paint_again(buf, b1, fill_region(b1, w, h, o, b), w, b);
        }
    } else {
        lemma_region_paints_once(buf, w, h, o, b);
        lemma_paint_again(buf, buf, fill_region(buf, w, h, o, b), w, b);
    }
}


/// Every point of Bresenham's walk from a valid state lies, on each axis,
/// between the current point and the end point.
proof fn lemma_walk_between(x: int, y: int, err: int, x1: int, y1: int, dx: int, dy: int, sx: int, sy: int, fuel: nat)
    requires
        line_state(x, y, err, x1, y1, dx, dy, sx, sy),
    ensures
        forall|k: int|
            0 <= k < line_walk(x, y, err, x1, y1, dx, dy, sx, sy, fuel).len() ==> {
                let p = #[trigger] line_walk(x, y, err, x1, y1, dx, dy, sx, sy, fuel)[k];
                &&& min_int(x, x1) <= p.0 <= max_int(x, x1)
                &&& min_int(y, y1) <= p.1 <= max_int(y, y1)
            },
    decreases fuel,
{
    if fuel > 0 && !(x == x1 && y == y1) {
        lemma_line_step(x, y, err, x1, y1, dx, dy, sx, sy);
        let e2 = 2 * err;
        let nx = if e2 >= dy { x + sx } else { x };
        let err1 = if e2 >= dy { err + dy } else { err };
        let ny = if e2 <= dx { y + sy } else { y };
        let err2 = if e2 <= dx { err1 + dx } else { err1 };
        lemma_walk_between(nx, ny, err2, x1, y1, dx, dy, sx, sy, (fuel - 1) as nat);
        assert(min_int(x, x1) <= nx <= max_int(x, x1) && min_int(y, y1) <= ny <= max_int(y, y1)) by {
            if sx == 1 {
                assert((x1 - nx) * sx == x1 - nx);
                assert((x1 - x) * sx == x1 - x);
            } else {
                assert((x1 - nx) * sx == nx - x1);
                assert((x1 - x) * sx == x - x1);
            }
            if sy == 1 {
                assert((y1 - ny) * sy == y1 - ny);
                assert((y1 - y) * sy == y1 - y);
            } else {
                assert((y1 - ny) * sy == ny - y1);
                assert((y1 - y) * sy == y - y1);
            }
        }
        let rest = line_walk(nx, ny, err2, x1, y1, dx, dy, sx, sy, (fuel - 1) as nat);
        let all = line_walk(x, y, err, x1, y1, dx, dy, sx, sy, fuel);
        assert(all == seq![(x, y)] + rest);
        assert forall|k: int| 0 < k < all.len() implies #[trigger] all[k] == rest[k - 1] by {}
    }
}

/// Every pixel of the line from `(x0, y0)` to `(x1, y1)` lies in the box
/// the two end points span.
pub proof fn lemma_line_points_in_box(x0: int, y0: int, x1: int, y1: int)
    ensures
        forall|k: int|
            0 <= k < line_points(x0, y0, x1, y1).len() ==> {
                let p = #[trigger] line_points(x0, y0, x1, y1)[k];
                &&& min_int(x0, x1) <= p.0 <= max_int(x0, x1)
                &&& min_int(y0, y1) <= p.1 <= max_int(y0, y1)
            },
{
    let dx = abs_int(x1 - x0);
    let dy = -abs_int(y1 - y0);
    let sx: int = if x0 < x1 { 1 } else { -1 };
    let sy: int = if y0 < y1 { 1 } else { -1 };
    assert((x1 - x0) * sx == dx && (y1 - y0) * sy == -dy) by {
        if sx == 1 {} else {}
        if sy == 1 {} else {}
    }
    let rx = (x1 - x0) * sx;
    let ry = (y1 - y0) * sy;
    assert(dx + dy == dx * (1 + (-dy - ry)) + dy * (1 + (dx - rx))) by (nonlinear_arith)
        requires
            rx == dx,
            ry == -dy,
    ;
    assert(line_state(x0, y0, dx + dy, x1, y1, dx, dy, sx, sy));
    lemma_walk_between(x0, y0, dx + dy, x1, y1, dx, dy, sx, sy, (dx - dy + 1) as nat);
}

/// The smallest and largest coordinates of the first `k` points bound each
/// of them.
proof fn lemma_coord_bounds(pts: Seq<Point>, axis: int, k: int, j: int)
    requires
        1 <= k <= pts.len(),
        0 <= j < k,
    ensures
        min_coord(pts, axis, k) <= pts[j][axis] as int <= max_coord(pts, axis, k),
    decreases k,
{
    if k > 1 && j < k - 1 {
        lemma_coord_bounds(pts, axis, k - 1, j);
    }
}

/// With a brush that paints rather than inverts, a pixel of the brush's
/// colour keeps it through any further stamps.
proof fn lemma_stamp_all_keeps_color(buf: Seq<Pixel>, w: int, h: int, pts: Seq<(int, int)>, b: Brush, i: int)
    requires
        !b.xor,
        0 <= i < buf.len(),
        buf[i] == b.color,
    ensures
        stamp_all(buf, w, h, pts, b)[i] == b.color,
        stamp_all(buf, w, h, pts, b).len() == buf.len(),
    decreases pts.len(),
{
    if pts.len() > 0 {
        let next = stamp(buf, w, h, pts[0].0, pts[0].1, b);
        lemma_stamp_all_keeps_color(next, w, h, pts.drop_first(), b, i);
    }
}

/// With a brush that paints rather than inverts, every pixel of the buffer
/// that the brush's centre visits and the dither lets through ends up in the
/// brush's colour.
proof fn lemma_stamp_all_paints(buf: Seq<Pixel>, w: int, h: int, pts: Seq<(int, int)>, b: Brush, k: int)
    requires
        !b.xor,
        b.radius >= 0,
        buf.len() == w * h,
        0 <= k < pts.len(),
        0 <= pts[k].0 < w,
        0 <= pts[k].1 < h,
        dither_mask(b.dither, pts[k].0 as usize, pts[k].1 as usize),
    ensures
        stamp_all(buf, w, h, pts, b)[pts[k].1 * w + pts[k].0] == b.color,
    decreases pts.len(),
{
    let next = stamp(buf, w, h, pts[0].0, pts[0].1, b);
    if k == 0 {
        let (qx, qy) = pts[0];
        lemma_index_join(qx, qy, w, h);
        let i = qy * w + qx;
        assert(in_disc(0, 0, b.radius as int)) by (nonlinear_arith)
            requires
                b.radius >= 0,
        ;
        assert(stamp_hits(i, w, h, qx, qy, b, b.radius + 1, 0));
        lemma_stamp_all_keeps_color(next, w, h, pts.drop_first(), b, i);
    } else {
        assert(pts.drop_first()[k - 1] == pts[k]);
        lemma_stamp_all_paints(next, w, h, pts.drop_first(), b, k - 1);
    }
}

/// An outlined polygon is closed: every pixel of the segment from its last
/// point back to its first that lies in the buffer, and that its dither
/// pattern lets through, is painted in the polygon's colour (in any blend
/// mode but XOR, which inverts a pixel that two edges share).
pub proof fn law_polygon_outline_closes(buf: Seq<Pixel>, w: int, h: int, o: ObjectView, transparent: bool, k: int)
    requires
        buf.len() == w * h,
        o.visible,
        spec_kind_of(o.kind) == Kind::Polygon,
        o.points.len() >= 3,
        !o.style.fill,
        o.children.len() == 0,
        o.style.blend@ != "xor"@,
        0 <= k < line_points(
            o.points[o.points.len() - 1][0] as int,
            o.points[o.points.len() - 1][1] as int,
            o.points[0][0] as int,
            o.points[0][1] as int,
        ).len(),
        ({
            let q = line_points(
                o.points[o.points.len() - 1][0] as int,
                o.points[o.points.len() - 1][1] as int,
                o.points[0][0] as int,
                o.points[0][1] as int,
            )[k];
            &&& 0 <= q.0 < w
            &&& 0 <= q.1 < h
            &&& dither_mask(spec_dither_of(o.style.dither_pattern@), q.0 as usize, q.1 as usize)
        }),
    ensures
        ({
            let q = line_points(
                o.points[o.points.len() - 1][0] as int,
                o.points[o.points.len() - 1][1] as int,
                o.points[0][0] as int,
                o.points[0][1] as int,
            )[k];
            raster_object(buf, w, h, o, transparent)[q.1 * w + q.0] == spec_color_of(o.style.color@, transparent)
        }),
{
    let pts = o.points;
    let n = pts.len() as int;
    let closing = closing_points(pts);
    let q = closing[k];
    let b = brush_of(o, transparent);
    lemma_line_points_in_box(pts[n - 1][0] as int, pts[n - 1][1] as int, pts[0][0] as int, pts[0][1] as int);
    assert(min_int(pts[n - 1][0] as int, pts[0][0] as int) <= q.0 <= max_int(pts[n - 1][0] as int, pts[0][0] as int));
    assert(min_int(pts[n - 1][1] as int, pts[0][1] as int) <= q.1 <= max_int(pts[n - 1][1] as int, pts[0][1] as int));
    lemma_coord_bounds(pts, 0, n, 0);
    lemma_coord_bounds(pts, 0, n, n - 1);
    lemma_coord_bounds(pts, 1, n, 0);
    lemma_coord_bounds(pts, 1, n, n - 1);
    assert(!box_empty(pts, w, h));
    assert(stroke_width(o) >= 1);
    assert(b.radius >= 0);
    let all = segment_points(pts, n - 1) + closing;
    let j = segment_points(pts, n - 1).len() + k;
    assert(all[j] == q);
    lemma_stamp_all_paints(buf, w, h, all, b, j);
    assert(o.children =~= Seq::<ObjectView>::empty());
    assert(spec_blend(Pixel::Black, b.color, false) == b.color);
}


/// Whether pixel `(x, y)` lies in the box spanned by the first two points:
/// its centre is inside the box.
pub open spec fn pixel_in_box(pts: Seq<Point>, x: int, y: int) -> bool {
    &&& min_int(pts[0][0] as int, pts[1][0] as int) <= x < max_int(pts[0][0] as int, pts[1][0] as int)
    &&& min_int(pts[0][1] as int, pts[1][1] as int) <= y < max_int(pts[0][1] as int, pts[1][1] as int)
}

/// Whether the centre of pixel `(x, y)` lies within half the stroke width
/// `sw` of an edge of the box spanned by the first two points (distances in
/// half pixels: the centre is at `2x + 1`).
pub open spec fn pixel_near_box_edge(pts: Seq<Point>, sw: int, x: int, y: int) -> bool {
    ||| 2 * x + 1 - 2 * min_int(pts[0][0] as int, pts[1][0] as int) <= sw
    ||| 2 * max_int(pts[0][0] as int, pts[1][0] as int) - (2 * x + 1) <= sw
    ||| 2 * y + 1 - 2 * min_int(pts[0][1] as int, pts[1][1] as int) <= sw
    ||| 2 * max_int(pts[0][1] as int, pts[1][1] as int) - (2 * y + 1) <= sw
}

/// An outlined rectangle leaves alone every pixel whose centre lies farther
/// than half its stroke width from each edge of its box: only the outline is
/// drawn.
pub proof fn law_outlined_rect_leaves_inside(buf: Seq<Pixel>, w: int, h: int, o: ObjectView, transparent: bool, x: int, y: int)
    requires
        buf.len() == w * h,
        spec_kind_of(o.kind) == Kind::Rect,
        o.points.len() >= 2,
        !o.style.fill,
        o.children.len() == 0,
        0 <= x < w,
        0 <= y < h,
        !pixel_near_box_edge(o.points, max_int(o.style.width as int, 1), x, y),
    ensures
        raster_object(buf, w, h, o, transparent)[y * w + x] == buf[y * w + x],
{
    lemma_index_join(x, y, w, h);
    assert(o.children =~= Seq::<ObjectView>::empty());
    assert(!covers(o, stroke_width(o), x, y));
}

/// A rectangle paints, in its colour, every pixel of its box whose centre
/// lies within half its stroke width of an edge, and when filled every pixel
/// of its box, wherever the dither pattern lets the pixel through (in any
/// blend mode but XOR).
pub proof fn law_rect_paints_box(buf: Seq<Pixel>, w: int, h: int, o: ObjectView, transparent: bool, x: int, y: int)
    requires
        buf.len() == w * h,
        o.visible,
        spec_kind_of(o.kind) == Kind::Rect,
        o.points.len() >= 2,
        o.children.len() == 0,
        o.style.blend@ != "xor"@,
        0 <= x < w,
        0 <= y < h,
        pixel_in_box(o.points, x, y),
        o.style.fill || pixel_near_box_edge(o.points, max_int(o.style.width as int, 1), x, y),
        dither_mask(spec_dither_of(o.style.dither_pattern@), x as usize, y as usize),
    ensures
        raster_object(buf, w, h, o, transparent)[y * w + x] == spec_color_of(o.style.color@, transparent),
{
    let pts = o.points;
    let n = pts.len() as int;
    lemma_index_join(x, y, w, h);
    lemma_coord_bounds(pts, 0, n, 0);
    lemma_coord_bounds(pts, 0, n, 1);
    lemma_coord_bounds(pts, 1, n, 0);
    lemma_coord_bounds(pts, 1, n, 1);
    assert(!box_empty(pts, w, h));
    assert(o.children =~= Seq::<ObjectView>::empty());
    assert(covers(o, stroke_width(o), x, y));
    let b = brush_of(o, transparent);
    assert(region_hits(y * w + x, w, h, o, b, h, 0));
    assert(spec_blend(buf[y * w + x], b.color, false) == b.color);
}

} // verus!

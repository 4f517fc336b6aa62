//! How densely the dither patterns draw: each pattern other than solid
//! repeats every 48 pixels across and down, and lets exactly half of the
//! pixels of any 48 by 48 window through.
use vstd::prelude::*;
use vstd::arithmetic::div_mod::{lemma_add_mod_noop, lemma_mod_multiples_vanish, lemma_mod_twice};

use crate::raster::{bayer4_table, bayer8_table, dither_mask, Dither};

verus! {

/// 1 where pattern `d` lets pixel `(x, y)` through, 0 elsewhere.
pub open spec fn dither_hit(d: Dither, x: int, y: int) -> nat {
    if dither_mask(d, x as usize, y as usize) {
        1
    } else {
        0
    }
}

/// `f(a) + f(a + 1) + ... + f(a + n - 1)`.
pub open spec fn sum_from(f: spec_fn(int) -> nat, a: int, n: nat) -> nat
    decreases n,
{
    if n == 0 {
        0
    } else {
        sum_from(f, a, (n - 1) as nat) + f(a + n - 1)
    }
}

/// The pixels of row `y` as 1 where pattern `d` lets them through.
pub open spec fn row_hits(d: Dither, y: int) -> spec_fn(int) -> nat {
    |x: int| dither_hit(d, x, y)
}

/// How many of the `n` pixels of row `y` from column `x0` rightwards
/// pattern `d` lets through.
pub open spec fn allowed_in_row(d: Dither, x0: int, y: int, n: nat) -> nat {
    sum_from(row_hits(d, y), x0, n)
}

/// For each row, how many of its `w` pixels from column `x0` pattern `d`
/// lets through.
pub open spec fn row_counts(d: Dither, x0: int, w: nat) -> spec_fn(int) -> nat {
    |y: int| allowed_in_row(d, x0, y, w)
}

/// How many pixels of the `w` by `h` window whose top-left pixel is
/// `(x0, y0)` pattern `d` lets through.
pub open spec fn allowed_in_window(d: Dither, x0: int, y0: int, w: nat, h: nat) -> nat {
    sum_from(row_counts(d, x0, w), y0, h)
}

/// The number of columns after which pattern `d` repeats.
pub open spec fn period_x(d: Dither) -> nat {
    match d {
        Dither::Solid => 1,
        Dither::DiagonalLine => 6,
        Dither::VerticalLine => 4,
        Dither::HorizontalLine => 1,
        Dither::Screen => 2,
        Dither::Bayer2x2 => 2,
        Dither::Bayer4x4 => 4,
        Dither::Bayer8x8 => 8,
        Dither::FloydSteinberg => 8,
        Dither::Burkes => 16,
        Dither::Atkinson => 8,
    }
}

/// The number of rows after which pattern `d` repeats.
pub open spec fn period_y(d: Dither) -> nat {
    match d {
        Dither::Solid => 1,
        Dither::DiagonalLine => 6,
        Dither::VerticalLine => 1,
        Dither::HorizontalLine => 4,
        Dither::Screen => 2,
        Dither::Bayer2x2 => 2,
        Dither::Bayer4x4 => 4,
        Dither::Bayer8x8 => 8,
        Dither::FloydSteinberg => 8,
        Dither::Burkes => 8,
        Dither::Atkinson => 8,
    }
}

/// The largest coordinate the lemmas below handle.
pub open spec fn coord_bound() -> int {
    2_000_000
}

// ---------------------------------------------------------------------------
// Sums
// ---------------------------------------------------------------------------

proof fn lemma_sum_concat(f: spec_fn(int) -> nat, a: int, n: nat, m: nat)
    ensures
        sum_from(f, a, n + m) == sum_from(f, a, n) + sum_from(f, a + n, m),
    decreases m,
{
    if m > 0 {
        lemma_sum_concat(f, a, n, (m - 1) as nat);
        assert((n + m - 1) as nat == n + (m - 1) as nat);
    }
}

proof fn lemma_sum_const(f: spec_fn(int) -> nat, a: int, c: nat, n: nat)
    requires
        forall|x: int| a <= x < a + n ==> #[trigger] f(x) == c,
    ensures
        sum_from(f, a, n) == c * n,
    decreases n,
{
    if n > 0 {
        lemma_sum_const(f, a, c, (n - 1) as nat);
        assert(f(a + n - 1) == c);
        assert(c * (n - 1) + c == c * n) by (nonlinear_arith);
    } else {
        assert(c * 0 == 0) by (nonlinear_arith);
    }
}

/// Two functions that add up to `c` everywhere on a range add up to `c`
/// times its length there.
proof fn lemma_sum_pointwise(f: spec_fn(int) -> nat, g: spec_fn(int) -> nat, a: int, c: nat, n: nat)
    requires
        forall|x: int| a <= x < a + n ==> #[trigger] f(x) + g(x) == c,
    ensures
        sum_from(f, a, n) + sum_from(g, a, n) == c * n,
    decreases n,
{
    if n > 0 {
        lemma_sum_pointwise(f, g, a, c, (n - 1) as nat);
        assert(f(a + n - 1) + g(a + n - 1) == c);
        assert(c * (n - 1) + c == c * n) by (nonlinear_arith);
    } else {
        assert(c * 0 == 0) by (nonlinear_arith);
    }
}

/// A function whose value and its value `s` places on add up to `c` sums,
/// over `n` places and over the `n` places `s` further on, to `c * n`.
proof fn lemma_sum_pairs(f: spec_fn(int) -> nat, a: int, s: int, c: nat, n: nat)
    requires
        forall|x: int| a <= x < a + n ==> #[trigger] f(x) + f(x + s) == c,
    ensures
        sum_from(f, a, n) + sum_from(f, a + s, n) == c * n,
    decreases n,
{
    if n > 0 {
        lemma_sum_pairs(f, a, s, c, (n - 1) as nat);
        assert(f(a + n - 1) + f(a + n - 1 + s) == c);
        assert(a + s + n - 1 == a + n - 1 + s);
        assert(c * (n - 1) + c == c * n) by (nonlinear_arith);
    } else {
        assert(c * 0 == 0) by (nonlinear_arith);
    }
}

/// The same over `k` blocks of `2 * s` places.
proof fn lemma_sum_blocks(f: spec_fn(int) -> nat, a: int, s: nat, c: nat, k: nat)
    requires
        forall|x: int| a <= x < a + 2 * s * k ==> #[trigger] f(x) + f(x + s) == c,
    ensures
        sum_from(f, a, 2 * s * k) == c * s * k,
    decreases k,
{
    if k > 0 {
        let j = (k - 1) as nat;
        assert(2 * s * j + 2 * s == 2 * s * k && c * s * j + c * s == c * s * k && 0 <= 2 * s * j) by (nonlinear_arith)
            requires
                j == k - 1,
        ;
        lemma_sum_blocks(f, a, s, c, j);
        lemma_sum_concat(f, a, 2 * s * j, 2 * s);
        let b = a + 2 * s * j;
        lemma_sum_concat(f, b, s, s);
        lemma_sum_pairs(f, b, s as int, c, s);
        assert(s + s == 2 * s);
    } else {
        assert(2 * s * k == 0 && c * s * k == 0) by (nonlinear_arith)
            requires
                k == 0,
        ;
    }
}

// ---------------------------------------------------------------------------
// The patterns
// ---------------------------------------------------------------------------

/// A pattern's verdict on a pixel depends only on the pixel's place within
/// the pattern's period.
proof fn lemma_mask_reduces(d: Dither, x: usize, y: usize)
    requires
        d != Dither::Solid,
        x <= coord_bound(),
        y <= coord_bound(),
    ensures
        dither_mask(d, x, y) == dither_mask(d, (x as int % period_x(d) as int) as usize, (y as int % period_y(d) as int) as usize),
{
    match d {
        Dither::Solid => {},
        Dither::DiagonalLine => {
            lemma_add_mod_noop(x as int, y as int, 6);
            lemma_mod_twice(x as int, 6);
            lemma_mod_twice(y as int, 6);
        },
        Dither::VerticalLine => {
            lemma_mod_twice(x as int, 4);
        },
        Dither::HorizontalLine => {
            lemma_mod_twice(y as int, 4);
        },
        Dither::Screen => {
            lemma_add_mod_noop(x as int, y as int, 2);
            lemma_mod_twice(x as int, 2);
            lemma_mod_twice(y as int, 2);
        },
        Dither::Bayer2x2 => {
            lemma_mod_twice(x as int, 2);
            lemma_mod_twice(y as int, 2);
        },
        Dither::Bayer4x4 => {
            lemma_mod_twice(x as int, 4);
            lemma_mod_twice(y as int, 4);
        },
        Dither::Bayer8x8 => {
            lemma_mod_twice(x as int, 8);
            lemma_mod_twice(y as int, 8);
        },
        Dither::FloydSteinberg => {
            assert((x * 5 + y * 3) % 8 == ((x % 8) * 5 + (y % 8) * 3) % 8) by (bit_vector)
                requires
                    x <= 2000000usize,
                    y <= 2000000usize,
            ;
        },
        Dither::Burkes => {
            assert((x * 3 + y * 5 + x / 2) % 8 == ((x % 16) * 3 + (y % 8) * 5 + (x % 16) / 2) % 8) by (bit_vector)
                requires
                    x <= 2000000usize,
                    y <= 2000000usize,
            ;
        },
        Dither::Atkinson => {
            assert((x * 7 + y * 2 + (x ^ y)) % 8 == ((x % 8) * 7 + (y % 8) * 2 + ((x % 8) ^ (y % 8))) % 8)
                by (bit_vector)
                requires
                    x <= 2000000usize,
                    y <= 2000000usize,
            ;
        },
    }
}

/// The columns and rows by which a pattern's shifted copy is its complement.
pub open spec fn complement_shift(d: Dither) -> (int, int) {
    match d {
        Dither::Solid => (0, 0),
        Dither::DiagonalLine => (3, 0),
        Dither::VerticalLine => (2, 0),
        Dither::HorizontalLine => (0, 2),
        Dither::Screen => (1, 0),
        Dither::Bayer2x2 => (1, 0),
        Dither::Bayer4x4 => (1, 0),
        Dither::Bayer8x8 => (1, 0),
        Dither::FloydSteinberg => (4, 0),
        Dither::Burkes => (8, 0),
        Dither::Atkinson => (0, 4),
    }
}

proof fn lemma_bayer4_checkerboard(r: int, c: int)
    requires
        0 <= r < 4,
        0 <= c < 4,
    ensures
        (bayer4_table()[r][c] < 8) == ((r + c) % 2 == 0),
{
    let t = bayer4_table();
    assert(t[0] =~= seq![0u8, 8, 2, 10]);
    assert(t[1] =~= seq![12u8, 4, 14, 6]);
    assert(t[2] =~= seq![3u8, 11, 1, 9]);
    assert(t[3] =~= seq![15u8, 7, 13, 5]);
    if r == 0 {
        if c == 0 {
            assert(t[0][0] == 0);
        } else if c == 1 {
            assert(t[0][1] == 8);
        } else if c == 2 {
            assert(t[0][2] == 2);
        } else if c == 3 {
            assert(t[0][3] == 10);
        }
    } else if r == 1 {
        if c == 0 {
            assert(t[1][0] == 12);
        } else if c == 1 {
            assert(t[1][1] == 4);
        } else if c == 2 {
            assert(t[1][2] == 14);
        } else if c == 3 {
            assert(t[1][3] == 6);
        }
    } else if r == 2 {
        if c == 0 {
            assert(t[2][0] == 3);
        } else if c == 1 {
            assert(t[2][1] == 11);
        } else if c == 2 {
            assert(t[2][2] == 1);
        } else if c == 3 {
            assert(t[2][3] == 9);
        }
    } else if r == 3 {
        if c == 0 {
            assert(t[3][0] == 15);
        } else if c == 1 {
            assert(t[3][1] == 7);
        } else if c == 2 {
            assert(t[3][2] == 13);
        } else if c == 3 {
            assert(t[3][3] == 5);
        }
    }
}

proof fn lemma_bayer8_checkerboard(r: int, c: int)
    requires
        0 <= r < 8,
        0 <= c < 8,
    ensures
        (bayer8_table()[r][c] < 32) == ((r + c) % 2 == 0),
{
    let t = bayer8_table();
    assert(t[0] =~= seq![0u8, 48, 12, 60, 3, 51, 15, 63]);
    assert(t[1] =~= seq![32u8, 16, 44, 28, 35, 19, 47, 31]);
    assert(t[2] =~= seq![8u8, 56, 4, 52, 11, 59, 7, 55]);
    assert(t[3] =~= seq![40u8, 24, 36, 20, 43, 27, 39, 23]);
    assert(t[4] =~= seq![2u8, 50, 14, 62, 1, 49, 13, 61]);
    assert(t[5] =~= seq![34u8, 18, 46, 30, 33, 17, 45, 29]);
    assert(t[6] =~= seq![10u8, 58, 6, 54, 9, 57, 5, 53]);
    assert(t[7] =~= seq![42u8, 26, 38, 22, 41, 25, 37, 21]);
    if r == 0 {
        if c == 0 {
            assert(t[0][0] == 0);
        } else if c == 1 {
            assert(t[0][1] == 48);
        } else if c == 2 {
            assert(t[0][2] == 12);
        } else if c == 3 {
            assert(t[0][3] == 60);
        } else if c == 4 {
            assert(t[0][4] == 3);
        } else if c == 5 {
            assert(t[0][5] == 51);
        } else if c == 6 {
            assert(t[0][6] == 15);
        } else if c == 7 {
            assert(t[0][7] == 63);
        }
    } else if r == 1 {
        if c == 0 {
            assert(t[1][0] == 32);
        } else if c == 1 {
            assert(t[1][1] == 16);
        } else if c == 2 {
            assert(t[1][2] == 44);
        } else if c == 3 {
            assert(t[1][3] == 28);
        } else if c == 4 {
            assert(t[1][4] == 35);
        } else if c == 5 {
            assert(t[1][5] == 19);
        } else if c == 6 {
            assert(t[1][6] == 47);
        } else if c == 7 {
            assert(t[1][7] == 31);
        }
    } else if r == 2 {
        if c == 0 {
            assert(t[2][0] == 8);
        } else if c == 1 {
            assert(t[2][1] == 56);
        } else if c == 2 {
            assert(t[2][2] == 4);
        } else if c == 3 {
            assert(t[2][3] == 52);
        } else if c == 4 {
            assert(t[2][4] == 11);
        } else if c == 5 {
            assert(t[2][5] == 59);
        } else if c == 6 {
            assert(t[2][6] == 7);
        } else if c == 7 {
            assert(t[2][7] == 55);
        }
    } else if r == 3 {
        if c == 0 {
            assert(t[3][0] == 40);
        } else if c == 1 {
            assert(t[3][1] == 24);
        } else if c == 2 {
            assert(t[3][2] == 36);
        } else if c == 3 {
            assert(t[3][3] == 20);
        } else if c == 4 {
            assert(t[3][4] == 43);
        } else if c == 5 {
            assert(t[3][5] == 27);
        } else if c == 6 {
            assert(t[3][6] == 39);
        } else if c == 7 {
            assert(t[3][7] == 23);
        }
    } else if r == 4 {
        if c == 0 {
            assert(t[4][0] == 2);
        } else if c == 1 {
            assert(t[4][1] == 50);
        } else if c == 2 {
            assert(t[4][2] == 14);
        } else if c == 3 {
            assert(t[4][3] == 62);
        } else if c == 4 {
            assert(t[4][4] == 1);
        } else if c == 5 {
            assert(t[4][5] == 49);
        } else if c == 6 {
            assert(t[4][6] == 13);
        } else if c == 7 {
            assert(t[4][7] == 61);
        }
    } else if r == 5 {
        if c == 0 {
            assert(t[5][0] == 34);
        } else if c == 1 {
            assert(t[5][1] == 18);
        } else if c == 2 {
            assert(t[5][2] == 46);
        } else if c == 3 {
            assert(t[5][3] == 30);
        } else if c == 4 {
            assert(t[5][4] == 33);
        } else if c == 5 {
            assert(t[5][5] == 17);
        } else if c == 6 {
            assert(t[5][6] == 45);
        } else if c == 7 {
            assert(t[5][7] == 29);
        }
    } else if r == 6 {
        if c == 0 {
            assert(t[6][0] == 10);
        } else if c == 1 {
            assert(t[6][1] == 58);
        } else if c == 2 {
            assert(t[6][2] == 6);
        } else if c == 3 {
            assert(t[6][3] == 54);
        } else if c == 4 {
            assert(t[6][4] == 9);
        } else if c == 5 {
            assert(t[6][5] == 57);
        } else if c == 6 {
            assert(t[6][6] == 5);
        } else if c == 7 {
            assert(t[6][7] == 53);
        }
    } else if r == 7 {
        if c == 0 {
            assert(t[7][0] == 42);
        } else if c == 1 {
            assert(t[7][1] == 26);
        } else if c == 2 {
            assert(t[7][2] == 38);
        } else if c == 3 {
            assert(t[7][3] == 22);
        } else if c == 4 {
            assert(t[7][4] == 41);
        } else if c == 5 {
            assert(t[7][5] == 25);
        } else if c == 6 {
            assert(t[7][6] == 37);
        } else if c == 7 {
            assert(t[7][7] == 21);
        }
    }
}

/// Shifting a pattern other than solid by its complement shift turns every
/// pixel it lets through into one it holds back, and the other way round.
proof fn lemma_complement(d: Dither, x: usize, y: usize)
    requires
        d != Dither::Solid,
        x <= coord_bound(),
        y <= coord_bound(),
    ensures
        dither_mask(d, (x + complement_shift(d).0) as usize, (y + complement_shift(d).1) as usize) == !dither_mask(d, x, y),
{
    match d {
        Dither::Solid => {},
        Dither::DiagonalLine => {
            let v = x as int + y as int;
            assert((v + 3) % 6 < 3 <==> !(v % 6 < 3)) by (nonlinear_arith)
                requires
                    v >= 0,
            ;
        },
        Dither::VerticalLine => {
            assert((x + 2) % 4 < 2 <==> !(x % 4 < 2)) by (bit_vector)
                requires
                    x <= 2000000usize,
            ;
        },
        Dither::HorizontalLine => {
            assert((y + 2) % 4 < 2 <==> !(y % 4 < 2)) by (bit_vector)
                requires
                    y <= 2000000usize,
            ;
        },
        Dither::Screen => {
            assert(((x + 1) + y) % 2 == 0 <==> !((x + y) % 2 == 0)) by (bit_vector)
                requires
                    x <= 2000000usize,
                    y <= 2000000usize,
            ;
        },
        Dither::Bayer2x2 => {
            assert(((x + 1) % 2 == y % 2) <==> !(x % 2 == y % 2)) by (bit_vector)
                requires
                    x <= 2000000usize,
            ;
        },
        Dither::Bayer4x4 => {
            lemma_bayer4_checkerboard((y % 4) as int, (x % 4) as int);
            lemma_bayer4_checkerboard((y % 4) as int, ((x + 1) % 4) as int);
            assert((((y % 4) + ((x + 1) % 4)) % 2 == 0) <==> !(((y % 4) + (x % 4)) % 2 == 0)) by (bit_vector)
                requires
                    x <= 2000000usize,
            ;
        },
        Dither::Bayer8x8 => {
            lemma_bayer8_checkerboard((y % 8) as int, (x % 8) as int);
            lemma_bayer8_checkerboard((y % 8) as int, ((x + 1) % 8) as int);
            assert((((y % 8) + ((x + 1) % 8)) % 2 == 0) <==> !(((y % 8) + (x % 8)) % 2 == 0)) by (bit_vector)
                requires
                    x <= 2000000usize,
            ;
        },
        Dither::FloydSteinberg => {
            assert(((x + 4) * 5 + y * 3) % 8 < 4 <==> !((x * 5 + y * 3) % 8 < 4)) by (bit_vector)
                requires
                    x <= 2000000usize,
                    y <= 2000000usize,
            ;
        },
        Dither::Burkes => {
            assert(((x + 8) * 3 + y * 5 + (x + 8) / 2) % 8 < 4 <==> !((x * 3 + y * 5 + x / 2) % 8 < 4)) by (bit_vector)
                requires
                    x <= 2000000usize,
                    y <= 2000000usize,
            ;
        },
        Dither::Atkinson => {
            assert((x * 7 + (y + 4) * 2 + (x ^ ((y + 4) as usize))) % 8 < 4 <==> !((x * 7 + y * 2 + (x ^ y)) % 8 < 4)) by (bit_vector)
                requires
                    x <= 2000000usize,
                    y <= 2000000usize,
            ;
        },
    }
}

/// Pixel `(x, y)` and its shift by the complement shift: exactly one of the
/// two is let through.
proof fn lemma_hits_pair(d: Dither, x: int, y: int)
    requires
        d != Dither::Solid,
        0 <= x <= coord_bound(),
        0 <= y <= coord_bound(),
    ensures
        dither_hit(d, x, y) + dither_hit(d, x + complement_shift(d).0, y + complement_shift(d).1) == 1,
{
    lemma_complement(d, x as usize, y as usize);
    assert((x as usize) as int == x && (y as usize) as int == y);
}

/// For a pattern whose complement lies across, each run of 48 pixels of a
/// row holds 24 that the pattern lets through.
proof fn lemma_row_half(d: Dither, x0: int, y: int)
    requires
        d != Dither::Solid,
        complement_shift(d).1 == 0,
        0 <= x0 <= 1_000_000,
        0 <= y <= 1_001_000,
    ensures
        allowed_in_row(d, x0, y, 48) == 24,
{
    let s = complement_shift(d).0;
    let f = row_hits(d, y);
    assert(1 <= s <= 8);
    assert forall|x: int| x0 <= x < x0 + 48 implies #[trigger] f(x) + f(x + s) == 1 by {
        lemma_hits_pair(d, x, y);
    }
    if s == 1 {
        lemma_sum_blocks(f, x0, 1, 1, 24);
    } else if s == 2 {
        lemma_sum_blocks(f, x0, 2, 1, 12);
    } else if s == 3 {
        lemma_sum_blocks(f, x0, 3, 1, 8);
    } else if s == 4 {
        lemma_sum_blocks(f, x0, 4, 1, 6);
    } else {
        assert(s == 8);
        lemma_sum_blocks(f, x0, 8, 1, 3);
    }
}

/// For a pattern whose complement lies down, a row of 48 pixels and the row
/// the complement shift further down hold 48 let-through pixels between them.
proof fn lemma_rows_pair(d: Dither, x0: int, y: int)
    requires
        d != Dither::Solid,
        complement_shift(d).0 == 0,
        0 <= x0 <= 1_000_000,
        0 <= y <= 1_001_000,
    ensures
        allowed_in_row(d, x0, y, 48) + allowed_in_row(d, x0, y + complement_shift(d).1, 48) == 48,
{
    let s = complement_shift(d).1;
    let f = row_hits(d, y);
    let g = row_hits(d, y + s);
    assert forall|x: int| x0 <= x < x0 + 48 implies #[trigger] f(x) + g(x) == 1 by {
        lemma_hits_pair(d, x, y);
    }
    lemma_sum_pointwise(f, g, x0, 1, 48);
}

/// Each dither pattern other than solid repeats every 48 pixels across and
/// every 48 pixels down, and of the 2304 pixels of any 48 by 48 window it
/// lets exactly half, 1152, through.
pub proof fn law_dither_half_density(d: Dither, x0: usize, y0: usize, x: usize, y: usize)
    requires
        d != Dither::Solid,
        x0 <= 1_000_000,
        y0 <= 1_000_000,
        x <= 1_000_000,
        y <= 1_000_000,
    ensures
        dither_mask(d, (x + 48) as usize, y) == dither_mask(d, x, y),
        dither_mask(d, x, (y + 48) as usize) == dither_mask(d, x, y),
        allowed_in_window(d, x0 as int, y0 as int, 48, 48) == 1152,
{
    let px = period_x(d) as int;
    let py = period_y(d) as int;
    assert(px * (48int / px) == 48 && py * (48int / py) == 48 && px > 0 && py > 0) by {
        match d {
            Dither::Solid => {},
            Dither::DiagonalLine => {},
            Dither::VerticalLine => {},
            Dither::HorizontalLine => {},
            Dither::Screen => {},
            Dither::Bayer2x2 => {},
            Dither::Bayer4x4 => {},
            Dither::Bayer8x8 => {},
            Dither::FloydSteinberg => {},
            Dither::Burkes => {},
            Dither::Atkinson => {},
        }
    }
    lemma_mask_reduces(d, x, y);
    lemma_mask_reduces(d, (x + 48) as usize, y);
    lemma_mask_reduces(d, x, (y + 48) as usize);
    lemma_mod_multiples_vanish(48int / px, x as int, px);
    lemma_mod_multiples_vanish(48int / py, y as int, py);
    let g = row_counts(d, x0 as int, 48);
    if complement_shift(d).1 == 0 {
        assert forall|r: int| y0 <= r < y0 + 48 implies #[trigger] g(r) == 24 by {
            lemma_row_half(d, x0 as int, r);
        }
        lemma_sum_const(g, y0 as int, 24, 48);
    } else {
        let s = complement_shift(d).1;
        assert(complement_shift(d).0 == 0 && (s == 2 || s == 4));
        assert forall|r: int| y0 <= r < y0 + 48 implies #[trigger] g(r) + g(r + s) == 48 by {
            lemma_rows_pair(d, x0 as int, r);
        }
        if s == 2 {
            lemma_sum_blocks(g, y0 as int, 2, 48, 12);
        } else {
            lemma_sum_blocks(g, y0 as int, 4, 48, 6);
        }
    }
}

} // verus!

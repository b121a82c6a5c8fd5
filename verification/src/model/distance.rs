//! The planar Euclidean distance on coordinates held in millionths, rounded
//! to a whole number.
//!
//! The distance is computed in whole numbers throughout. With `s` the squared
//! length of the difference of two points, in squared units, the distance
//! rounded up is the least `d` with `(d * scale)^2 >= s`, and the distance
//! rounded to the nearest whole number (halves upwards) is the `d` with
//! `(2d - 1) * scale <= 2 * sqrt(s) < (2d + 1) * scale`.

use vstd::prelude::*;
use crate::tsplib_parser::custom_types::{Coord, MAX_UNITS, UNITS_PER_ONE};

verus! {

/// How a distance becomes a whole number.
#[derive(Clone, Copy, Debug, PartialEq, Eq, Structural)]
pub enum Rounding {
    /// To the nearest whole number, halves upwards.
    Nearest,
    /// Upwards.
    Ceiling,
}

/// `dx * dx + dy * dy`.
pub open spec fn squared_length(dx: int, dy: int) -> int {
    dx * dx + dy * dy
}

/// `d` is `sqrt(s) / scale` rounded up.
pub open spec fn is_ceiling_root(d: int, s: int, scale: int) -> bool {
    &&& 0 <= d
    &&& s <= (d * scale) * (d * scale)
    &&& d > 0 ==> ((d - 1) * scale) * ((d - 1) * scale) < s
}

/// `d` is `sqrt(s) / scale` rounded to the nearest whole number, halves
/// upwards.
pub open spec fn is_nearest_root(d: int, s: int, scale: int) -> bool {
    &&& 0 <= d
    &&& d > 0 ==> ((2 * d - 1) * scale) * ((2 * d - 1) * scale) <= 4 * s
    &&& 4 * s < ((2 * d + 1) * scale) * ((2 * d + 1) * scale)
}

/// `d` is `sqrt(s) / scale` rounded as `rounding` says.
pub open spec fn is_rounded_root(d: int, s: int, scale: int, rounding: Rounding) -> bool {
    match rounding {
        Rounding::Nearest => is_nearest_root(d, s, scale),
        Rounding::Ceiling => is_ceiling_root(d, s, scale),
    }
}

/// `sqrt(s) / scale` rounded as `rounding` says.
pub open spec fn rounded_root(s: int, scale: int, rounding: Rounding) -> int {
    choose|d: int| is_rounded_root(d, s, scale, rounding)
}

/// The distance of two points of the plane, given in millionths, as a whole
/// number.
pub open spec fn planar_distance(x1: int, y1: int, x2: int, y2: int, rounding: Rounding) -> int {
    rounded_root(squared_length(x1 - x2, y1 - y2), UNITS_PER_ONE as int, rounding)
}

/// The distance of two rows of the coordinate section. A third coordinate is
/// left out.
pub open spec fn coord_distance(a: Coord, b: Coord, rounding: Rounding) -> int {
    planar_distance(a.x() as int, a.y() as int, b.x() as int, b.y() as int, rounding)
}

proof fn lemma_square_monotone(a: int, b: int)
    requires
        0 <= a <= b,
    ensures
        a * a <= b * b,
{
    assert(a * a <= b * b) by (nonlinear_arith)
        requires
            0 <= a <= b,
    ;
}

proof fn lemma_scaled_monotone(a: int, b: int, scale: int)
    requires
        a <= b,
        0 <= scale,
    ensures
        a * scale <= b * scale,
{
    assert(a * scale <= b * scale) by (nonlinear_arith)
        requires
            a <= b,
            0 <= scale,
    ;
}

/// At most one whole number is the rounded root.
pub proof fn lemma_rounded_root_unique(d1: int, d2: int, s: int, scale: int, rounding: Rounding)
    requires
        0 < scale,
        is_rounded_root(d1, s, scale, rounding),
        is_rounded_root(d2, s, scale, rounding),
    ensures
        d1 == d2,
{
    if d1 != d2 {
        let lo = if d1 < d2 { d1 } else { d2 };
        let hi = if d1 < d2 { d2 } else { d1 };
        assert(0 <= lo <= hi - 1);
        match rounding {
            Rounding::Ceiling => {
                lemma_scaled_monotone(lo, hi - 1, scale);
                lemma_scaled_monotone(0, lo, scale);
                lemma_square_monotone(lo * scale, (hi - 1) * scale);
            },
            Rounding::Nearest => {
                lemma_scaled_monotone(2 * lo + 1, 2 * hi - 1, scale);
                lemma_scaled_monotone(0, 2 * lo + 1, scale);
                lemma_square_monotone((2 * lo + 1) * scale, (2 * hi - 1) * scale);
            },
        }
    }
}

/// A whole number that is the rounded root is the one that `rounded_root`
/// names.
pub proof fn lemma_rounded_root_is(d: int, s: int, scale: int, rounding: Rounding)
    requires
        0 < scale,
        is_rounded_root(d, s, scale, rounding),
    ensures
        rounded_root(s, scale, rounding) == d,
{
    lemma_rounded_root_unique(d, rounded_root(s, scale, rounding), s, scale, rounding);
}

/// The distance from `a` to `b` is the distance from `b` to `a`.
pub proof fn lemma_distance_symmetric(a: Coord, b: Coord, rounding: Rounding)
    ensures
        coord_distance(a, b, rounding) == coord_distance(b, a, rounding),
{
    let dx = a.x() as int - b.x() as int;
    let dy = a.y() as int - b.y() as int;
    assert(dx * dx == (-dx) * (-dx)) by (nonlinear_arith);
    assert(dy * dy == (-dy) * (-dy)) by (nonlinear_arith);
    assert(squared_length(dx, dy) == squared_length(-dx, -dy));
}

/// The whole part of the square root.
pub fn integer_sqrt(s: u128) -> (r: u64)
    requires
        s < 0x4000_0000_0000_0000_0000_0000_0000_0000,
    ensures
        r * r <= s < (r + 1) * (r + 1),
        r < 0x8000_0000_0000_0000,
{
    let mut lo: u128 = 0;
    let mut hi: u128 = 0x8000_0000_0000_0000;
    assert(0x8000_0000_0000_0000u128 * 0x8000_0000_0000_0000u128
        == 0x4000_0000_0000_0000_0000_0000_0000_0000u128) by (nonlinear_arith);
    while hi - lo > 1
        invariant
            lo < hi <= 0x8000_0000_0000_0000,
            lo * lo <= s < hi * hi,
        decreases hi - lo,
    {
        let mid: u128 = lo + (hi - lo) / 2;
        assert(mid * mid < 0x4000_0000_0000_0000_0000_0000_0000_0000) by (nonlinear_arith)
            requires
                0 <= mid < 0x8000_0000_0000_0000,
        ;
        if mid * mid <= s {
            lo = mid;
        } else {
            hi = mid;
        }
    }
    lo as u64
}

/// The magnitude of the difference of two numbers of the coordinate range.
fn gap(a: i64, b: i64) -> (g: u128)
    requires
        -MAX_UNITS <= a <= MAX_UNITS,
        -MAX_UNITS <= b <= MAX_UNITS,
    ensures
        g == if a >= b { a - b } else { b - a },
        g <= 2 * MAX_UNITS,
{
    if a >= b {
        (a - b) as u128
    } else {
        (b - a) as u128
    }
}

/// The distance of two points of the plane, given in millionths, as a whole
/// number.
pub fn euclid_distance(x1: i64, y1: i64, x2: i64, y2: i64, rounding: Rounding) -> (d: usize)
    requires
        -MAX_UNITS <= x1 <= MAX_UNITS,
        -MAX_UNITS <= y1 <= MAX_UNITS,
        -MAX_UNITS <= x2 <= MAX_UNITS,
        -MAX_UNITS <= y2 <= MAX_UNITS,
    ensures
        d == planar_distance(x1 as int, y1 as int, x2 as int, y2 as int, rounding),
        d <= 3_000_000_001,
{
    let dx = gap(x1, x2);
    let dy = gap(y1, y2);
    let scale: u128 = 1_000_000;
    proof {
        lemma_square_monotone(dx as int, 2 * MAX_UNITS);
        lemma_square_monotone(dy as int, 2 * MAX_UNITS);
        assert((2 * MAX_UNITS) * (2 * MAX_UNITS) == 4_000_000_000_000_000_000_000_000_000_000)
            by (nonlinear_arith);
        let ex = x1 as int - x2 as int;
        let ey = y1 as int - y2 as int;
        assert(dx * dx == ex * ex) by (nonlinear_arith)
            requires
                dx == ex || dx == -ex,
        ;
        assert(dy * dy == ey * ey) by (nonlinear_arith)
            requires
                dy == ey || dy == -ey,
        ;
    }
    let s: u128 = dx * dx + dy * dy;
    assert(s == squared_length(x1 as int - x2 as int, y1 as int - y2 as int));
    assert(s <= 8_000_000_000_000_000_000_000_000_000_000);
    match rounding {
        Rounding::Ceiling => {
            let r = integer_sqrt(s) as u128;
            let c: u128 = if r * r == s { r } else { r + 1 };
            proof {
                // c is the square root rounded up, and it is below 3 * 10^15 + 1
                if r >= 3_000_000_000_000_000 {
                    lemma_square_monotone(3_000_000_000_000_000, r as int);
                    assert(3_000_000_000_000_000int * 3_000_000_000_000_000int
                        == 9_000_000_000_000_000_000_000_000_000_000int) by (nonlinear_arith);
                }
            }
            let d: u128 = (c + 999_999) / 1_000_000;
            proof {
                assert(d * 1_000_000 <= c + 999_999 < (d + 1) * 1_000_000);
                assert(d * scale >= c && (d > 0 ==> (d - 1) * scale <= c - 1));
                assert(c * c >= s && (c > 0 ==> (c - 1) * (c - 1) < s)) by {
                    if r * r != s {
                        assert((r + 1) * (r + 1) > s);
                    } else if r > 0 {
                        assert((r - 1) * (r - 1) < r * r) by (nonlinear_arith)
                            requires
                                r > 0,
                        ;
                    }
                }
                lemma_square_monotone(c as int, (d * scale) as int);
                if d > 0 {
                    lemma_square_monotone(((d - 1) * scale) as int, c as int - 1);
                }
                assert(is_ceiling_root(d as int, s as int, 1_000_000));
                lemma_rounded_root_is(d as int, s as int, 1_000_000, rounding);
            }
            d as usize
        },
        Rounding::Nearest => {
            let r = integer_sqrt(4 * s) as u128;
            proof {
                if r >= 6_000_000_000_000_000 {
                    lemma_square_monotone(6_000_000_000_000_000, r as int);
                    assert(6_000_000_000_000_000int * 6_000_000_000_000_000int
                        == 36_000_000_000_000_000_000_000_000_000_000int) by (nonlinear_arith);
                }
            }
            let d: u128 = (r + 1_000_000) / 2_000_000;
            proof {
                assert(d * 2_000_000 <= r + 1_000_000 < (d + 1) * 2_000_000);
                assert((2 * d + 1) * scale >= r + 1);
                assert(d > 0 ==> 0 <= (2 * d - 1) * scale <= r);
                lemma_square_monotone(r as int + 1, ((2 * d + 1) * scale) as int);
                if d > 0 {
                    lemma_square_monotone(((2 * d - 1) * scale) as int, r as int);
                }
                assert(is_nearest_root(d as int, s as int, 1_000_000));
                lemma_rounded_root_is(d as int, s as int, 1_000_000, rounding);
            }
            d as usize
        },
    }
}

/// The distance of two rows of the coordinate section, as a whole number. A
/// third coordinate is left out.
pub fn compute_distance_euc(node_1_coord: &Coord, node_2_coord: &Coord, rounding: Rounding) -> (d:
    usize)
    requires
        node_1_coord.in_range(),
        node_2_coord.in_range(),
    ensures
        d == coord_distance(*node_1_coord, *node_2_coord, rounding),
        d <= 3_000_000_001,
{
    euclid_distance(
        node_1_coord.get_x(),
        node_1_coord.get_y(),
        node_2_coord.get_x(),
        node_2_coord.get_y(),
        rounding,
    )
}

} // verus!

//! Angles as integers: a full turn is [`TURN`] units, counted counterclockwise.
//! Sine and cosine use Bhaskara's rational approximation and the direction of a
//! vector uses the rational arctangent `z·π/4 + 0.273·z·(1 − z)` reduced by
//! octant; both are stated exactly below, so every caller's contract is exact.

use vstd::prelude::*;
use crate::fixed::{ONE, mod_floor};

verus! {

/// Units in a full turn.
pub const TURN: i64 = 65536;

/// Units in half a turn (π).
pub const HALF_TURN: i64 = 32768;

/// Units in a quarter turn (π/2).
pub const QUARTER_TURN: i64 = 16384;

/// Units in an eighth of a turn (π/4).
pub const EIGHTH_TURN: i64 = 8192;

/// 0.273 radians, in units: the bend of the arctangent approximation.
pub const ATAN_BEND: i64 = 2847;

/// Largest coordinate magnitude accepted by [`angle_of`].
pub const COORD_LIMIT: i128 = 0x100_0000_0000;

/// `a` wrapped into one turn, `[0, TURN)`.
pub open spec fn wrap_spec(a: int) -> int {
    a % (TURN as int)
}

/// `a` wrapped into `(-HALF_TURN, HALF_TURN]`.
pub open spec fn signed_spec(a: int) -> int {
    let w = wrap_spec(a);
    if w > HALF_TURN { w - TURN } else { w }
}

/// Bhaskara's approximation of `ONE * sin(a)` for `a` in `[0, HALF_TURN]`.
pub open spec fn bhaskara(a: int) -> int {
    let p = a * (HALF_TURN - a);
    (ONE * 16 * p) / (5 * HALF_TURN * HALF_TURN - 4 * p)
}

/// `ONE * sin(a)`, for any angle.
pub open spec fn sin_spec(a: int) -> int {
    let w = wrap_spec(a);
    if w <= HALF_TURN { bhaskara(w) } else { -bhaskara(w - HALF_TURN) }
}

/// `ONE * cos(a)`, for any angle.
pub open spec fn cos_spec(a: int) -> int {
    sin_spec(a + QUARTER_TURN)
}

/// The arctangent of `n / d` for `0 <= n <= d`, `d > 0`: in `[0, EIGHTH_TURN]`.
pub open spec fn atan_octant(n: int, d: int) -> int {
    (EIGHTH_TURN * (n * d) + ATAN_BEND * (n * (d - n))) / (d * d)
}

/// The direction of `(a, b)` with `a, b >= 0`, not both zero: in `[0, QUARTER_TURN]`.
pub open spec fn atan_quadrant(a: int, b: int) -> int {
    if b <= a { atan_octant(b, a) } else { QUARTER_TURN - atan_octant(a, b) }
}

pub open spec fn abs(x: int) -> int {
    if x < 0 { -x } else { x }
}

/// The direction of the vector `(c, s)`, measured from the x axis, in `[0, TURN)`;
/// the zero vector has direction 0.
pub open spec fn angle_of_spec(c: int, s: int) -> int {
    if c == 0 && s == 0 {
        0
    } else {
        let t = atan_quadrant(abs(c), abs(s));
        if c >= 0 && s >= 0 {
            t
        } else if c < 0 && s >= 0 {
            HALF_TURN - t
        } else if c < 0 {
            HALF_TURN + t
        } else {
            wrap_spec(TURN - t)
        }
    }
}

/// The rotation that turns the forward axis `(0, 1)` towards `(x, y)`.
pub open spec fn heading_spec(x: int, y: int) -> int {
    angle_of_spec(y, -x)
}

pub fn wrap_angle(a: i64) -> (r: i64)
    ensures
        r == wrap_spec(a as int),
        0 <= r < TURN,
{
    mod_floor(a as i128, TURN as i128) as i64
}

pub fn signed_angle(a: i64) -> (r: i64)
    ensures
        r == signed_spec(a as int),
        -HALF_TURN < r <= HALF_TURN,
{
    let w = wrap_angle(a);
    if w > HALF_TURN { w - TURN } else { w }
}

fn bhaskara_exec(a: i64) -> (r: i64)
    requires
        0 <= a <= HALF_TURN,
    ensures
        r == bhaskara(a as int),
        0 <= r <= ONE,
{
    assert(0 <= a * (HALF_TURN - a) <= HALF_TURN * HALF_TURN / 4) by (nonlinear_arith)
        requires
            0 <= a <= HALF_TURN,
    ;
    let p: i64 = a * (HALF_TURN - a);
    let den: i64 = 5 * HALF_TURN * HALF_TURN - 4 * p;
    let num: i64 = ONE * 16 * p;
    assert(num <= ONE * den) by (nonlinear_arith)
        requires
            0 <= p <= HALF_TURN * HALF_TURN / 4,
            den == 5 * HALF_TURN * HALF_TURN - 4 * p,
            num == ONE * 16 * p,
    ;
    assert(num / den <= ONE) by (nonlinear_arith)
        requires
            0 <= num <= ONE * den,
            den > 0,
    ;
    num / den
}

/// `ONE * sin(a)`.
pub fn sin_fx(a: i64) -> (r: i64)
    ensures
        r == sin_spec(a as int),
        -ONE <= r <= ONE,
{
    let w = wrap_angle(a);
    if w <= HALF_TURN { bhaskara_exec(w) } else { -bhaskara_exec(w - HALF_TURN) }
}

/// `ONE * cos(a)`.
pub fn cos_fx(a: i64) -> (r: i64)
    requires
        a <= i64::MAX - QUARTER_TURN,
    ensures
        r == cos_spec(a as int),
        -ONE <= r <= ONE,
{
    sin_fx(a + QUARTER_TURN)
}

fn atan_octant_exec(n: i128, d: i128) -> (r: i128)
    requires
        0 <= n <= d <= COORD_LIMIT,
        0 < d,
    ensures
        r == atan_octant(n as int, d as int),
        0 <= r <= EIGHTH_TURN,
{
    assert(n * d <= COORD_LIMIT * COORD_LIMIT && n * (d - n) <= COORD_LIMIT * COORD_LIMIT
        && 0 <= n * (d - n) && 0 < d * d <= COORD_LIMIT * COORD_LIMIT) by (nonlinear_arith)
        requires
            0 <= n <= d <= COORD_LIMIT,
            0 < d,
    ;
    let e = EIGHTH_TURN as i128;
    let k = ATAN_BEND as i128;
    let num = e * (n * d) + k * (n * (d - n));
    let den = d * d;
    assert(0 <= num <= EIGHTH_TURN * den) by (nonlinear_arith)
        requires
            0 <= n <= d,
            num == EIGHTH_TURN * (n * d) + ATAN_BEND * (n * (d - n)),
            den == d * d,
    ;
    assert(num / den <= EIGHTH_TURN) by (nonlinear_arith)
        requires
            0 <= num <= EIGHTH_TURN * den,
            den > 0,
    ;
    num / den
}

/// The direction of `(c, s)` measured from the x axis, in `[0, TURN)`.
pub fn angle_of(c: i128, s: i128) -> (r: i64)
    requires
        -COORD_LIMIT <= c <= COORD_LIMIT,
        -COORD_LIMIT <= s <= COORD_LIMIT,
    ensures
        r == angle_of_spec(c as int, s as int),
        0 <= r < TURN,
{
    if c == 0 && s == 0 {
        return 0;
    }
    let a = if c < 0 { -c } else { c };
    let b = if s < 0 { -s } else { s };
    let t = if b <= a {
        atan_octant_exec(b, a)
    } else {
        QUARTER_TURN as i128 - atan_octant_exec(a, b)
    };
    let t = t as i64;
    if c >= 0 && s >= 0 {
        t
    } else if c < 0 && s >= 0 {
        HALF_TURN - t
    } else if c < 0 {
        HALF_TURN + t
    } else {
        wrap_angle(TURN - t)
    }
}

/// The rotation that turns the forward axis `(0, 1)` towards `(x, y)`.
pub fn heading_of(x: i128, y: i128) -> (r: i64)
    requires
        -COORD_LIMIT <= x <= COORD_LIMIT,
        -COORD_LIMIT <= y <= COORD_LIMIT,
    ensures
        r == heading_spec(x as int, y as int),
        0 <= r < TURN,
{
    angle_of(y, -x)
}

} // verus!

//! Fixed-point trigonometry: sine and cosine of a binary angle, the
//! principal angle of a vector, and the polar offset used to attach one
//! node to another.
//!
//! The functions are exact integer computations; each executable function
//! returns precisely the value of its spec-level twin, so every geometric
//! contract of the solvers is stated over these definitions.

use vstd::arithmetic::div_mod::{
    lemma_div_is_ordered, lemma_div_multiples_vanish, lemma_div_pos_is_pos,
    lemma_multiply_divide_le,
};
use vstd::arithmetic::mul::lemma_mul_inequality;
use vstd::prelude::*;

use crate::fx::{
    emod_turn, Vec2, Vec2View, EIGHTH_TURN, HALF_TURN, QUARTER_TURN, RADIUS_MAX, TRIG_ONE, TURN,
};

verus! {

/// Quarter-wave sine table: for `t` in `[0, QUARTER_TURN]` this is
/// `sin` of that fraction of a quarter turn, in Q1.15, evaluated by an
/// odd fixed-point polynomial and clamped into `[0, TRIG_ONE]`.
#[verifier::opaque]
pub open spec fn spec_sin_quarter(t: int) -> int {
    let u = t / 32768;
    let u2 = (u * u) / 32768;
    let u3 = (u2 * u) / 32768;
    let u5 = (u3 * u2) / 32768;
    let s = (51466 * u - 21077 * u3 + 2383 * u5) / 32768;
    if s > TRIG_ONE {
        TRIG_ONE as int
    } else if s < 0 {
        0
    } else {
        s
    }
}

/// Sine of a binary angle, in Q1.15: the quarter-wave table unfolded over
/// the four quadrants of the wrapped angle.
#[verifier::opaque]
pub open spec fn spec_sin(a: int) -> int {
    let m = a % (TURN as int);
    let q = m / (QUARTER_TURN as int);
    let t = m % (QUARTER_TURN as int);
    if q == 0 {
        spec_sin_quarter(t)
    } else if q == 1 {
        spec_sin_quarter(QUARTER_TURN - t)
    } else if q == 2 {
        -spec_sin_quarter(t)
    } else {
        -spec_sin_quarter(QUARTER_TURN - t)
    }
}

/// Cosine of a binary angle, in Q1.15: the sine a quarter turn ahead.
pub open spec fn spec_cos(a: int) -> int {
    spec_sin(a + QUARTER_TURN)
}

/// Bounds of the quarter-wave sine.
proof fn lemma_sin_quarter_range(t: int)
    ensures
        0 <= spec_sin_quarter(t) <= TRIG_ONE,
{
    reveal(spec_sin_quarter);
}

/// Bounds of the sine of any angle.
pub proof fn lemma_sin_range(a: int)
    ensures
        -TRIG_ONE <= spec_sin(a) <= TRIG_ONE,
{
    reveal(spec_sin);
    let m = a % (TURN as int);
    let t = m % (QUARTER_TURN as int);
    lemma_sin_quarter_range(t);
    lemma_sin_quarter_range(QUARTER_TURN - t);
}

/// Bounds of the cosine of any angle.
pub proof fn lemma_cos_range(a: int)
    ensures
        -TRIG_ONE <= spec_cos(a) <= TRIG_ONE,
{
    lemma_sin_range(a + QUARTER_TURN);
}

/// Quarter-wave sine, executable twin of [`spec_sin_quarter`].
fn sin_quarter(t: i64) -> (r: i64)
    requires
        0 <= t <= QUARTER_TURN,
    ensures
        r == spec_sin_quarter(t as int),
        0 <= r <= TRIG_ONE,
{
    proof {
        reveal(spec_sin_quarter);
    }
    let u = t / 32768;
    assert(0 <= u <= 32768) by {
        lemma_div_pos_is_pos(t as int, 32768);
        lemma_div_is_ordered(t as int, QUARTER_TURN as int, 32768);
    }
    proof {
        assert(0 <= u * u <= 32768 * 32768) by (nonlinear_arith)
            requires
                0 <= u <= 32768,
        ;
    }
    let u2 = (u * u) / 32768;
    assert(0 <= u2 <= 32768) by {
        lemma_div_pos_is_pos((u * u) as int, 32768);
        lemma_div_is_ordered((u * u) as int, 32768int * 32768, 32768);
    }
    proof {
        assert(0 <= u2 * u <= 32768 * 32768) by (nonlinear_arith)
            requires
                0 <= u2 <= 32768,
                0 <= u <= 32768,
        ;
    }
    let u3 = (u2 * u) / 32768;
    assert(0 <= u3 <= 32768) by {
        lemma_div_pos_is_pos((u2 * u) as int, 32768);
        lemma_div_is_ordered((u2 * u) as int, 32768int * 32768, 32768);
    }
    proof {
        assert(0 <= u3 * u2 <= 32768 * 32768) by (nonlinear_arith)
            requires
                0 <= u3 <= 32768,
                0 <= u2 <= 32768,
        ;
    }
    let u5 = (u3 * u2) / 32768;
    assert(0 <= u5 <= 32768) by {
        lemma_div_pos_is_pos((u3 * u2) as int, 32768);
        lemma_div_is_ordered((u3 * u2) as int, 32768int * 32768, 32768);
    }
    let s = (51466 * u - 21077 * u3 + 2383 * u5) / 32768;
    if s > TRIG_ONE {
        TRIG_ONE
    } else if s < 0 {
        0
    } else {
        s
    }
}

/// Sine of a binary angle, executable twin of [`spec_sin`].
pub fn sin_fx(a: i64) -> (r: i64)
    ensures
        r == spec_sin(a as int),
        -TRIG_ONE <= r <= TRIG_ONE,
{
    proof {
        reveal(spec_sin);
    }
    let m = emod_turn(a);
    let q = m / QUARTER_TURN;
    let t = m % QUARTER_TURN;
    assert(0 <= t < QUARTER_TURN);
    assert(0 <= q <= 3) by {
        lemma_div_pos_is_pos(m as int, QUARTER_TURN as int);
        lemma_div_is_ordered(m as int, (TURN - 1) as int, QUARTER_TURN as int);
    }
    if q == 0 {
        sin_quarter(t)
    } else if q == 1 {
        sin_quarter(QUARTER_TURN - t)
    } else if q == 2 {
        -sin_quarter(t)
    } else {
        -sin_quarter(QUARTER_TURN - t)
    }
}

/// Cosine of a binary angle, executable twin of [`spec_cos`].
pub fn cos_fx(a: i64) -> (r: i64)
    requires
        a + QUARTER_TURN <= i64::MAX,
    ensures
        r == spec_cos(a as int),
        -TRIG_ONE <= r <= TRIG_ONE,
{
    sin_fx(a + QUARTER_TURN)
}

/// A Q1.15 factor `c` applied to a nonnegative length `r`, rounded toward
/// zero: the scalar building block of [`spec_polar`].
#[verifier::opaque]
pub open spec fn spec_scale_trig(c: int, r: int) -> int {
    if c >= 0 {
        (c * r) / (TRIG_ONE as int)
    } else {
        -(((-c) * r) / (TRIG_ONE as int))
    }
}

/// The scaled length never exceeds the length itself.
pub proof fn lemma_scale_trig_bound(c: int, r: int)
    requires
        -TRIG_ONE <= c <= TRIG_ONE,
        0 <= r,
    ensures
        -r <= spec_scale_trig(c, r) <= r,
{
    reveal(spec_scale_trig);
    let one = TRIG_ONE as int;
    if c >= 0 {
        lemma_mul_inequality(c, one, r);
        lemma_div_pos_is_pos(c * r, one);
        lemma_multiply_divide_le(c * r, one, r);
    } else {
        lemma_mul_inequality(-c, one, r);
        lemma_div_pos_is_pos((-c) * r, one);
        lemma_multiply_divide_le((-c) * r, one, r);
    }
}

/// Executable twin of [`spec_scale_trig`].
fn scale_trig(c: i64, r: i64) -> (o: i64)
    requires
        -TRIG_ONE <= c <= TRIG_ONE,
        0 <= r <= RADIUS_MAX,
    ensures
        o == spec_scale_trig(c as int, r as int),
        -r <= o <= r,
{
    proof {
        reveal(spec_scale_trig);
        lemma_scale_trig_bound(c as int, r as int);
        assert(c * r <= TRIG_ONE * RADIUS_MAX) by (nonlinear_arith)
            requires
                c <= TRIG_ONE,
                0 <= r <= RADIUS_MAX,
        ;
        assert(-(TRIG_ONE * RADIUS_MAX) <= c * r) by (nonlinear_arith)
            requires
                -TRIG_ONE <= c,
                0 <= r <= RADIUS_MAX,
        ;
        assert((-c) * r == -(c * r)) by (nonlinear_arith);
    }
    if c >= 0 {
        (c * r) / TRIG_ONE
    } else {
        let n = (-c) * r;
        proof {
            lemma_div_pos_is_pos(n as int, TRIG_ONE as int);
        }
        -(n / TRIG_ONE)
    }
}

/// The offset of length `radius` in direction `rot`: the fixed-point image
/// of `radius * (cos rot, sin rot)`.
pub open spec fn spec_polar(rot: int, radius: int) -> Vec2View {
    Vec2View {
        x: spec_scale_trig(spec_cos(rot), radius),
        y: spec_scale_trig(spec_sin(rot), radius),
    }
}

/// Both components of a polar offset are bounded by the radius.
pub proof fn lemma_polar_bound(rot: int, radius: int)
    requires
        0 <= radius,
    ensures
        -radius <= spec_polar(rot, radius).x <= radius,
        -radius <= spec_polar(rot, radius).y <= radius,
{
    lemma_sin_range(rot);
    lemma_cos_range(rot);
    lemma_scale_trig_bound(spec_cos(rot), radius);
    lemma_scale_trig_bound(spec_sin(rot), radius);
}

/// Executable twin of [`spec_polar`].
pub fn polar(rot: i64, radius: i64) -> (v: Vec2)
    requires
        rot + QUARTER_TURN <= i64::MAX,
        0 <= radius <= RADIUS_MAX,
    ensures
        v@ == spec_polar(rot as int, radius as int),
        -radius <= v.x <= radius,
        -radius <= v.y <= radius,
{
    let c = cos_fx(rot);
    let s = sin_fx(rot);
    Vec2 { x: scale_trig(c, radius), y: scale_trig(s, radius) }
}

/// The eighth-turn arctangent: for a slope `z` in `[0, TRIG_ONE]` (Q1.15),
/// the binary angle of `atan` of that slope, evaluated by an odd
/// fixed-point polynomial and clamped into `[0, EIGHTH_TURN]`.
#[verifier::opaque]
pub open spec fn spec_atan_eighth(z: int) -> int {
    let w = (z * z) / 32768;
    let t3 = (w * 26654192) / 32768;
    let t2 = (w * (99989604 - t3)) / 32768;
    let t1 = (w * (219548794 - t2)) / 32768;
    let p = 683028677 - t1;
    let a = (z * p) / 32768;
    if a > EIGHTH_TURN {
        EIGHTH_TURN as int
    } else if a < 0 {
        0
    } else {
        a
    }
}

/// Executable twin of [`spec_atan_eighth`].
fn atan_eighth(z: i64) -> (r: i64)
    requires
        0 <= z <= TRIG_ONE,
    ensures
        r == spec_atan_eighth(z as int),
        0 <= r <= EIGHTH_TURN,
{
    proof {
        reveal(spec_atan_eighth);
        assert(0 <= z * z <= 32768 * 32768) by (nonlinear_arith)
            requires
                0 <= z <= 32768,
        ;
    }
    let w = (z * z) / 32768;
    assert(0 <= w <= 32768) by {
        lemma_div_pos_is_pos((z * z) as int, 32768);
        lemma_div_is_ordered((z * z) as int, 32768int * 32768, 32768);
    }
    proof {
        assert(0 <= w * 26654192 <= 32768 * 26654192) by (nonlinear_arith)
            requires
                0 <= w <= 32768,
        ;
    }
    let t3 = (w * 26654192) / 32768;
    assert(0 <= t3 <= 26654192) by {
        lemma_div_pos_is_pos((w * 26654192) as int, 32768);
        lemma_multiply_divide_le((w * 26654192) as int, 32768, 26654192);
    }
    proof {
        assert(0 <= w * (99989604 - t3) <= 32768 * 99989604) by (nonlinear_arith)
            requires
                0 <= w <= 32768,
                0 <= 99989604 - t3 <= 99989604,
        ;
    }
    let t2 = (w * (99989604 - t3)) / 32768;
    assert(0 <= t2 <= 99989604) by {
        lemma_div_pos_is_pos((w * (99989604 - t3)) as int, 32768);
        lemma_multiply_divide_le((w * (99989604 - t3)) as int, 32768, 99989604);
    }
    proof {
        assert(0 <= w * (219548794 - t2) <= 32768 * 219548794) by (nonlinear_arith)
            requires
                0 <= w <= 32768,
                0 <= 219548794 - t2 <= 219548794,
        ;
    }
    let t1 = (w * (219548794 - t2)) / 32768;
    assert(0 <= t1 <= 219548794) by {
        lemma_div_pos_is_pos((w * (219548794 - t2)) as int, 32768);
        lemma_multiply_divide_le((w * (219548794 - t2)) as int, 32768, 219548794);
    }
    let p = 683028677 - t1;
    proof {
        assert(0 <= z * p <= 32768 * 683028677) by (nonlinear_arith)
            requires
                0 <= z <= 32768,
                0 <= p <= 683028677,
        ;
    }
    let a = (z * p) / 32768;
    assert(0 <= a) by {
        lemma_div_pos_is_pos((z * p) as int, 32768);
    }
    if a > EIGHTH_TURN {
        EIGHTH_TURN
    } else {
        a
    }
}

/// The principal binary angle of the vector `(x, y)`: the fixed-point
/// image of `atan2(y, x)`, in `(-HALF_TURN, HALF_TURN]`, and `0` for the
/// zero vector.
#[verifier::opaque]
pub open spec fn spec_atan2(y: int, x: int) -> int {
    if x == 0 && y == 0 {
        0
    } else {
        let ax = if x >= 0 {
            x
        } else {
            -x
        };
        let ay = if y >= 0 {
            y
        } else {
            -y
        };
        let a1 = if ay <= ax {
            spec_atan_eighth((ay * 32768) / ax)
        } else {
            QUARTER_TURN - spec_atan_eighth((ax * 32768) / ay)
        };
        if x >= 0 && y >= 0 {
            a1
        } else if x < 0 && y >= 0 {
            HALF_TURN - a1
        } else if x < 0 {
            if a1 == 0 {
                HALF_TURN as int
            } else {
                a1 - HALF_TURN
            }
        } else {
            -a1
        }
    }
}

/// Executable twin of [`spec_atan2`].
pub fn atan2_fx(y: i64, x: i64) -> (r: i64)
    requires
        -9007199254740992 <= y <= 9007199254740992,
        -9007199254740992 <= x <= 9007199254740992,
    ensures
        r == spec_atan2(y as int, x as int),
        -HALF_TURN < r <= HALF_TURN,
{
    proof {
        reveal(spec_atan2);
    }
    if x == 0 && y == 0 {
        return 0;
    }
    let ax = if x >= 0 {
        x
    } else {
        -x
    };
    let ay = if y >= 0 {
        y
    } else {
        -y
    };
    let a1: i64 = if ay <= ax {
        let z = (((ay as u128) * 32768) / (ax as u128)) as i64;
        proof {
            lemma_div_pos_is_pos(ay * 32768, ax as int);
            lemma_mul_inequality(ay as int, ax as int, 32768);
            lemma_div_multiples_vanish(32768, ax as int);
            assert(ax * 32768 == 32768 * ax) by (nonlinear_arith);
            lemma_div_is_ordered(ay * 32768, ax * 32768, ax as int);
        }
        atan_eighth(z)
    } else {
        let z = (((ax as u128) * 32768) / (ay as u128)) as i64;
        proof {
            lemma_div_pos_is_pos(ax * 32768, ay as int);
            lemma_mul_inequality(ax as int, ay as int, 32768);
            lemma_div_multiples_vanish(32768, ay as int);
            assert(ay * 32768 == 32768 * ay) by (nonlinear_arith);
            lemma_div_is_ordered(ax * 32768, ay * 32768, ay as int);
        }
        QUARTER_TURN - atan_eighth(z)
    };
    if x >= 0 && y >= 0 {
        a1
    } else if x < 0 && y >= 0 {
        HALF_TURN - a1
    } else if x < 0 {
        if a1 == 0 {
            HALF_TURN
        } else {
            a1 - HALF_TURN
        }
    } else {
        -a1
    }
}

} // verus!

//! Angle arithmetic: wrapping an orientation into the principal range and
//! the shortest signed difference between two orientations.
//!
//! The principal range is `(-HALF_TURN, HALF_TURN]`, the binary-angle image
//! of `(-pi, pi]`.

use vstd::arithmetic::div_mod::{
    lemma_add_mod_noop, lemma_fundamental_div_mod_converse_mod, lemma_mod_division_less_than_divisor,
    lemma_mod_self_0,
};
use vstd::prelude::*;

use crate::fx::{emod_turn, HALF_TURN, TURN};

verus! {

/// `a` brought into the principal range `(-HALF_TURN, HALF_TURN]` by
/// whole turns.
pub open spec fn spec_wrap_angle(a: int) -> int {
    let m = a % (TURN as int);
    if m > HALF_TURN {
        m - TURN
    } else {
        m
    }
}

/// The shortest signed rotation from orientation `b` to orientation `a`:
/// `a - b` brought into `(-HALF_TURN, HALF_TURN]`.
pub open spec fn spec_angle_diff(a: int, b: int) -> int {
    spec_wrap_angle(a - b)
}

/// Normalizes an arbitrary angle into `(-HALF_TURN, HALF_TURN]`,
/// wrapping around by whole turns if needed.
pub fn wrap_angle(a: i64) -> (r: i64)
    ensures
        r == spec_wrap_angle(a as int),
        -HALF_TURN < r <= HALF_TURN,
{
    let m = emod_turn(a);
    if m > HALF_TURN {
        m - TURN
    } else {
        m
    }
}

/// Difference between two orientations, normalized into
/// `(-HALF_TURN, HALF_TURN]`: the shortest signed rotation from `b` to `a`.
pub fn angle_diff(a: i64, b: i64) -> (r: i64)
    requires
        i64::MIN <= a - b <= i64::MAX,
    ensures
        r == spec_angle_diff(a as int, b as int),
        -HALF_TURN < r <= HALF_TURN,
{
    wrap_angle(a - b)
}

/// The wrapped difference of two orientations always lies in
/// `(-HALF_TURN, HALF_TURN]`; unless it is exactly `HALF_TURN` (pi),
/// swapping the orientations exactly flips its sign, and when it is pi the
/// swapped difference is pi as well.
pub proof fn lemma_angle_diff_antisymmetric(a: int, b: int)
    ensures
        -HALF_TURN < spec_angle_diff(a, b) <= HALF_TURN,
        spec_angle_diff(a, b) != HALF_TURN ==> spec_angle_diff(b, a) == -spec_angle_diff(a, b),
        spec_angle_diff(a, b) == HALF_TURN ==> spec_angle_diff(b, a) == HALF_TURN,
{
    let t = TURN as int;
    let d = a - b;
    let m1 = d % t;
    let m2 = (-d) % t;
    lemma_mod_division_less_than_divisor(d, t);
    lemma_mod_division_less_than_divisor(-d, t);
    lemma_add_mod_noop(d, -d, t);
    lemma_mod_self_0(t);
    assert((m1 + m2) % t == 0);
    lemma_mod_division_less_than_divisor(m1 + m2, t);
    if m1 + m2 != 0 {
        lemma_fundamental_div_mod_converse_mod(m1 + m2, t, 1, m1 + m2 - t);
    }
    assert(m1 + m2 == 0 || m1 + m2 == t);
}

} // verus!

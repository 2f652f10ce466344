//! Random draws. The numbers come from the `rand` crate; what is built from
//! them is verified for every number that may come.

use rand::Rng;
use vstd::prelude::*;
use crate::scalar::{lemma_sqrt_floor, lemma_sqrt_floor_square, sqrt_floor, UNIT};
use crate::space::{lemma_square_bounds, Vec2};

verus! {

/// How often `random_circle_point` draws before it settles for the centre.
pub const CIRCLE_ATTEMPTS: u32 = 64;

/// Draws an integer from `lo..=hi` by `rand::Rng::gen_range` on the
/// generator of `rand::thread_rng`. Nothing is known of the number but that
/// it lies in the range; an empty range makes `gen_range` panic and is ruled
/// out.
#[verifier::external_body]
pub(crate) fn random_between(lo: i64, hi: i64) -> (r: i64)
    requires
        lo <= hi,
    ensures
        lo <= r <= hi,
{
    rand::thread_rng().gen_range(lo..=hi)
}

/// A random point of the square around the origin whose sides are twice
/// `half_extent` long.
pub fn random_position(half_extent: i64) -> (p: Vec2)
    requires
        0 < half_extent,
    ensures
        -half_extent <= p.x < half_extent,
        -half_extent <= p.y < half_extent,
{
    Vec2 {
        x: random_between(-half_extent, half_extent - 1),
        y: random_between(-half_extent, half_extent - 1),
    }
}

/// Whether `p` lies strictly inside the circle of radius `UNIT`.
pub fn inside_unit_circle(p: Vec2) -> (inside: bool)
    requires
        p.within(UNIT as int),
    ensures
        inside == (p.spec_len() < UNIT),
{
    proof {
        lemma_square_bounds(p.x as int, UNIT as int);
        lemma_square_bounds(p.y as int, UNIT as int);
        lemma_sqrt_floor(p.x * p.x + p.y * p.y);
        let r = sqrt_floor(p.x * p.x + p.y * p.y);
        assert(UNIT * UNIT == 1_000_000_000_000) by (nonlinear_arith);
        if r >= UNIT {
            assert(r * r >= UNIT * UNIT) by (nonlinear_arith)
                requires
                    r >= UNIT,
            ;
        } else {
            assert((r + 1) * (r + 1) <= UNIT * UNIT) by (nonlinear_arith)
                requires
                    0 <= r,
                    r + 1 <= UNIT,
            ;
        }
    }
    p.x * p.x + p.y * p.y < UNIT * UNIT
}

/// A random point strictly inside the circle of radius `UNIT`: points of
/// the enclosing square are drawn until one lies in the circle. After
/// `CIRCLE_ATTEMPTS` draws outside it, the centre is returned.
pub fn random_circle_point() -> (p: Vec2)
    ensures
        p.spec_len() < UNIT,
        p.within(UNIT as int),
{
    let mut attempts: u32 = 0;
    while attempts < CIRCLE_ATTEMPTS
        invariant
            attempts <= CIRCLE_ATTEMPTS,
        decreases CIRCLE_ATTEMPTS - attempts,
    {
        let candidate = random_position(UNIT);
        if inside_unit_circle(candidate) {
            return candidate;
        }
        attempts = attempts + 1;
    }
    proof {
        lemma_sqrt_floor_square(0);
    }
    Vec2 { x: 0, y: 0 }
}

} // verus!

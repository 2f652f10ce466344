//! The wrap-around plane: a square world of half-extent `WORLD_SIZE` whose
//! opposite edges meet, and the vectors that live on it.

use vstd::prelude::*;
use crate::scalar::{
    abs_int, div_trunc, isqrt, lemma_div_trunc_bounds, lemma_ratio_bounds,
    lemma_sqrt_floor, lemma_sqrt_floor_monotone, lemma_sqrt_floor_square, lemma_wide_product,
    mul_div, sqrt_floor, UNIT,
};

verus! {

/// Half the side of the square world. Coordinates run from `-WORLD_SIZE` to
/// `WORLD_SIZE`.
pub const WORLD_SIZE: i64 = 50_000_000;

/// The largest coordinate for which every vector operation is exact: the
/// difference of two such coordinates, and the length of a vector made of
/// two such differences, still fit a scalar.
pub const COORD_LIMIT: i64 = 0x1000_0000_0000_0000;

/// A point or a displacement, in fixed-point coordinates.
#[derive(Clone, Copy, PartialEq, Eq, Structural, Debug)]
pub struct Vec2 {
    pub x: i64,
    pub y: i64,
}

/// One coordinate brought into `[-WORLD_SIZE, WORLD_SIZE]` by adding or
/// subtracting the world's side as often as needed. A coordinate above the
/// range lands in `(-WORLD_SIZE, WORLD_SIZE]`, one below it in
/// `[-WORLD_SIZE, WORLD_SIZE)`, one inside it stays.
pub open spec fn wrap_coord(c: int) -> int {
    if c > WORLD_SIZE {
        (c + WORLD_SIZE - 1) % (2 * WORLD_SIZE) - (WORLD_SIZE - 1)
    } else if c < -WORLD_SIZE {
        (WORLD_SIZE - 1) - (WORLD_SIZE - 1 - c) % (2 * WORLD_SIZE)
    } else {
        c
    }
}

/// The vector with the given coordinates, which must fit a scalar.
pub open spec fn vec2_of(x: int, y: int) -> Vec2 {
    Vec2 { x: x as i64, y: y as i64 }
}

/// The shortest displacement that leads from `a` to `b` on the wrap-around
/// plane.
pub open spec fn spec_delta_pos(a: Vec2, b: Vec2) -> Vec2 {
    vec2_of(wrap_coord(b.x - a.x), wrap_coord(b.y - a.y))
}

/// The shortest distance between `a` and `b` on the wrap-around plane.
pub open spec fn spec_distance(a: Vec2, b: Vec2) -> int {
    spec_delta_pos(a, b).spec_len()
}

/// The distance between `a` and `b` on the plane without wrap-around.
pub open spec fn straight_distance(a: Vec2, b: Vec2) -> int {
    sqrt_floor((b.x - a.x) * (b.x - a.x) + (b.y - a.y) * (b.y - a.y))
}

/// The point reached from `p` by the displacement `(dx, dy)`, wrapped into
/// the world.
pub open spec fn spec_offset(p: Vec2, dx: int, dy: int) -> Vec2 {
    vec2_of(wrap_coord(p.x + dx), wrap_coord(p.y + dy))
}

/// The point reached from `p` after moving with velocity `v` for the time
/// `dt`, wrapped into the world.
pub open spec fn spec_advance(p: Vec2, v: Vec2, dt: int) -> Vec2 {
    spec_offset(p, div_trunc(v.x * dt, UNIT as int), div_trunc(v.y * dt, UNIT as int))
}

/// The velocity `vel` turned toward `target` by a change of length at most
/// `max_step`.
pub open spec fn spec_steer(vel: Vec2, target: Vec2, max_step: int) -> Vec2 {
    let dx = target.x - vel.x;
    let dy = target.y - vel.y;
    let l = sqrt_floor(dx * dx + dy * dy);
    if l > max_step {
        vec2_of(vel.x + div_trunc(dx * max_step, l), vel.y + div_trunc(dy * max_step, l))
    } else {
        target
    }
}

impl Vec2 {
    /// Both coordinates lie in the world.
    pub open spec fn in_world(self) -> bool {
        -WORLD_SIZE <= self.x <= WORLD_SIZE && -WORLD_SIZE <= self.y <= WORLD_SIZE
    }

    /// Both coordinates are at most `COORD_LIMIT` in magnitude.
    pub open spec fn small(self) -> bool {
        -COORD_LIMIT <= self.x <= COORD_LIMIT && -COORD_LIMIT <= self.y <= COORD_LIMIT
    }

    /// Both coordinates are at most `bound` in magnitude.
    pub open spec fn within(self, bound: int) -> bool {
        -bound <= self.x <= bound && -bound <= self.y <= bound
    }

    /// The vector with both coordinates wrapped into the world.
    pub open spec fn spec_normalize(self) -> Vec2 {
        vec2_of(wrap_coord(self.x as int), wrap_coord(self.y as int))
    }

    /// The length, rounded down.
    pub open spec fn spec_len(self) -> int {
        sqrt_floor(self.x * self.x + self.y * self.y)
    }

    /// The vector of the same direction and of length `len`; the zero
    /// vector, which has no direction, stays zero.
    pub open spec fn spec_with_len(self, len: int) -> Vec2 {
        if self.spec_len() == 0 {
            Vec2 { x: 0, y: 0 }
        } else {
            vec2_of(
                div_trunc(self.x * len, self.spec_len()),
                div_trunc(self.y * len, self.spec_len()),
            )
        }
    }

    /// The vector shortened to `max_len` if it is longer.
    pub open spec fn spec_clamp(self, max_len: int) -> Vec2 {
        if self.spec_len() > max_len {
            self.spec_with_len(max_len)
        } else {
            self
        }
    }

    /// The vector multiplied by the fixed-point factor `k`.
    pub open spec fn spec_scale(self, k: int) -> Vec2 {
        vec2_of(div_trunc(self.x * k, UNIT as int), div_trunc(self.y * k, UNIT as int))
    }

    /// The vector with the given coordinates.
    pub fn new(x: i64, y: i64) -> (v: Vec2)
        ensures
            v == (Vec2 { x, y }),
    {
        Vec2 { x, y }
    }

    /// The vector without length.
    pub fn zero() -> (v: Vec2)
        ensures
            v == (Vec2 { x: 0, y: 0 }),
    {
        Vec2 { x: 0, y: 0 }
    }

    /// The length of the vector, rounded down, in the one type that holds
    /// the length of every vector.
    fn len_wide(self) -> (r: u64)
        ensures
            r == self.spec_len(),
    {
        let wx: i128 = self.x as i128;
        let wy: i128 = self.y as i128;
        proof {
            lemma_square_bounds(self.x as int, 0x8000_0000_0000_0000);
            lemma_square_bounds(self.y as int, 0x8000_0000_0000_0000);
            lemma_wide_product(self.x, self.x);
            lemma_wide_product(self.y, self.y);
        }
        let sx: u128 = (wx * wx) as u128;
        let sy: u128 = (wy * wy) as u128;
        isqrt(sx + sy)
    }

    /// The length of the vector, rounded down.
    pub fn len(self) -> (r: i64)
        requires
            self.spec_len() <= i64::MAX,
        ensures
            r == self.spec_len(),
    {
        self.len_wide() as i64
    }

    /// The vector of the same direction and of length `len`. The zero vector
    /// is returned unchanged.
    pub fn with_len(self, len: i64) -> (r: Vec2)
        requires
            len >= 0,
        ensures
            r == self.spec_with_len(len as int),
            r.within(len as int),
    {
        let l = self.len_wide();
        if l == 0 {
            return Vec2 { x: 0, y: 0 };
        }
        proof {
            lemma_coords_below_len(self);
            lemma_scaled_coord_bounds(self.x as int, len as int, l as int);
            lemma_scaled_coord_bounds(self.y as int, len as int, l as int);
            lemma_wide_product(self.x, len);
            lemma_wide_product(self.y, len);
        }
        let x: i128 = ((self.x as i128) * (len as i128)) / (l as i128);
        let y: i128 = ((self.y as i128) * (len as i128)) / (l as i128);
        Vec2 { x: x as i64, y: y as i64 }
    }

    /// The vector itself if it is at most `max_len` long, else the vector of
    /// the same direction and of length `max_len`.
    pub fn clamp(self, max_len: i64) -> (r: Vec2)
        requires
            max_len >= 0,
        ensures
            r == self.spec_clamp(max_len as int),
            self.within(max_len as int) || r.within(max_len as int),
            r.x == 0 || (r.x > 0) == (self.x > 0),
            r.y == 0 || (r.y > 0) == (self.y > 0),
            abs_int(r.x as int) <= abs_int(self.x as int),
            abs_int(r.y as int) <= abs_int(self.y as int),
    {
        let l = self.len_wide();
        proof {
            lemma_coords_below_len(self);
        }
        if l > max_len as u64 {
            proof {
                lemma_ratio_bounds(self.x as int, max_len as int, l as int);
                lemma_ratio_bounds(self.y as int, max_len as int, l as int);
            }
            self.with_len(max_len)
        } else {
            self
        }
    }

    /// The vector multiplied by the fixed-point factor `k`.
    pub fn scale(self, k: i64) -> (r: Vec2)
        requires
            i64::MIN <= div_trunc(self.x * k, UNIT as int) <= i64::MAX,
            i64::MIN <= div_trunc(self.y * k, UNIT as int) <= i64::MAX,
        ensures
            r == self.spec_scale(k as int),
    {
        Vec2 { x: mul_div(self.x, k, UNIT), y: mul_div(self.y, k, UNIT) }
    }
}

/// A square is bounded by the square of the bound of its root.
pub proof fn lemma_square_bounds(a: int, a_max: int)
    by (nonlinear_arith)
    requires
        -a_max <= a <= a_max,
    ensures
        0 <= a * a <= a_max * a_max,
{
}

/// Neither coordinate of a vector is longer than the vector.
pub proof fn lemma_coords_below_len(v: Vec2)
    ensures
        abs_int(v.x as int) <= v.spec_len(),
        abs_int(v.y as int) <= v.spec_len(),
{
    let ax = abs_int(v.x as int);
    let ay = abs_int(v.y as int);
    assert(ax * ax == v.x * v.x && ay * ay == v.y * v.y && ax * ax >= 0 && ay * ay >= 0)
        by (nonlinear_arith)
        requires
            ax == abs_int(v.x as int),
            ay == abs_int(v.y as int),
    ;
    lemma_sqrt_floor_square(ax);
    lemma_sqrt_floor_square(ay);
    lemma_sqrt_floor_monotone(ax * ax, v.x * v.x + v.y * v.y);
    lemma_sqrt_floor_monotone(ay * ay, v.x * v.x + v.y * v.y);
}

/// A vector whose coordinates are at most `bound` in magnitude is at most
/// twice `bound` long.
pub proof fn lemma_len_below(dx: int, dy: int, bound: int)
    requires
        -bound <= dx <= bound,
        -bound <= dy <= bound,
    ensures
        0 <= sqrt_floor(dx * dx + dy * dy) <= 2 * bound,
{
    lemma_square_bounds(dx, bound);
    lemma_square_bounds(dy, bound);
    assert(bound * bound + bound * bound <= (2 * bound) * (2 * bound)) by (nonlinear_arith)
        requires
            bound >= 0,
    ;
    lemma_sqrt_floor(dx * dx + dy * dy);
    lemma_sqrt_floor_monotone(dx * dx + dy * dy, (2 * bound) * (2 * bound));
    lemma_sqrt_floor_square(2 * bound);
}

/// A coordinate `c` of a vector of length `l`, rescaled to the length
/// `len`, is at most `len` in magnitude.
pub proof fn lemma_scaled_coord_bounds(c: int, len: int, l: int)
    requires
        l > 0,
        len >= 0,
        -l <= c <= l,
    ensures
        -len <= div_trunc(c * len, l) <= len,
{
    if c >= 0 {
        assert(0 <= c * len && (c * len) / l <= len) by (nonlinear_arith)
            requires
                0 <= c <= l,
                len >= 0,
                l > 0,
        ;
    } else {
        assert(0 <= -(c * len) && (-(c * len)) / l <= len && (c * len == 0 ==> (c * len) / l == 0))
            by (nonlinear_arith)
            requires
                -l <= c < 0,
                len >= 0,
                l > 0,
        ;
    }
}

/// Steering changes a velocity by no more than the step allows: the change
/// is at most `max_step` long, and each coordinate of the new velocity lies
/// between the old one and the target's.
pub proof fn lemma_steer_bounded(vel: Vec2, target: Vec2, max_step: int)
    requires
        vel.small(),
        target.small(),
        max_step >= 0,
    ensures
        ({
            let r = spec_steer(vel, target, max_step);
            &&& sqrt_floor((r.x - vel.x) * (r.x - vel.x) + (r.y - vel.y) * (r.y - vel.y)) <= max_step
            &&& vel.x <= r.x <= target.x || target.x <= r.x <= vel.x
            &&& vel.y <= r.y <= target.y || target.y <= r.y <= vel.y
        }),
{
    let dx = target.x - vel.x;
    let dy = target.y - vel.y;
    let n = dx * dx + dy * dy;
    assert(n >= 0) by (nonlinear_arith)
        requires
            n == dx * dx + dy * dy,
    ;
    lemma_sqrt_floor(n);
    let l = sqrt_floor(n);
    if l > max_step {
        let d = Vec2 { x: dx as i64, y: dy as i64 };
        lemma_coords_below_len(d);
        lemma_scaled_coord_bounds(dx, max_step, l);
        lemma_scaled_coord_bounds(dy, max_step, l);
        lemma_ratio_bounds(dx, max_step, l);
        lemma_ratio_bounds(dy, max_step, l);
        let cx = div_trunc(dx * max_step, l);
        let cy = div_trunc(dy * max_step, l);
        lemma_scaled_square(dx, max_step, l);
        lemma_scaled_square(dy, max_step, l);
        let c = cx * cx + cy * cy;
        assert(c >= 0) by (nonlinear_arith)
            requires
                c == cx * cx + cy * cy,
        ;
        assert(l * l * c <= max_step * max_step * n) by (nonlinear_arith)
            requires
                l * l * (cx * cx) <= max_step * max_step * (dx * dx),
                l * l * (cy * cy) <= max_step * max_step * (dy * dy),
                c == cx * cx + cy * cy,
                n == dx * dx + dy * dy,
        ;
        lemma_sqrt_floor(c);
        let s = sqrt_floor(c);
        if s > max_step {
            let lm = l * max_step;
            assert(lm >= 0) by (nonlinear_arith)
                requires
                    lm == l * max_step,
                    l > 0,
                    max_step >= 0,
            ;
            assert(l * l * c >= (lm + l) * (lm + l)) by (nonlinear_arith)
                requires
                    c >= s * s,
                    s >= max_step + 1,
                    max_step >= 0,
                    l > 0,
                    lm == l * max_step,
            ;
            let mm = max_step * max_step;
            assert(mm >= 0) by (nonlinear_arith)
                requires
                    mm == max_step * max_step,
            ;
            assert(mm * n <= mm * ((l + 1) * (l + 1))) by (nonlinear_arith)
                requires
                    n <= (l + 1) * (l + 1),
                    mm >= 0,
            ;
            assert(mm * ((l + 1) * (l + 1)) == (lm + max_step) * (lm + max_step))
                by (nonlinear_arith)
                requires
                    mm == max_step * max_step,
                    lm == l * max_step,
            ;
            assert((lm + max_step) * (lm + max_step) < (lm + l) * (lm + l)) by (nonlinear_arith)
                requires
                    0 <= max_step < l,
                    lm >= 0,
            ;
        }
    }
}

/// The square of a coordinate scaled by `m / l` and rounded toward zero is
/// at most the square of the coordinate scaled by that ratio.
proof fn lemma_scaled_square(c: int, m: int, l: int)
    requires
        l > 0,
        m >= 0,
    ensures
        l * l * (div_trunc(c * m, l) * div_trunc(c * m, l)) <= m * m * (c * c),
{
    let a = abs_int(c);
    let t = (a * m) / l;
    assert(a * m >= 0) by (nonlinear_arith)
        requires
            a >= 0,
            m >= 0,
    ;
    vstd::arithmetic::div_mod::lemma_fundamental_div_mod(a * m, l);
    assert(0 <= l * t <= a * m) by (nonlinear_arith)
        requires
            a * m == l * t + (a * m) % l,
            0 <= (a * m) % l < l,
            a * m >= 0,
            l > 0,
    ;
    if c >= 0 {
        assert(div_trunc(c * m, l) == t);
    } else {
        assert(c * m == -(a * m)) by (nonlinear_arith)
            requires
                a == -c,
        ;
        assert(div_trunc(c * m, l) == -t);
    }
    let q = div_trunc(c * m, l);
    assert(q * q == t * t) by (nonlinear_arith)
        requires
            q == t || q == -t,
    ;
    let lt = l * t;
    let am = a * m;
    assert(lt * lt <= am * am) by (nonlinear_arith)
        requires
            0 <= lt <= am,
    ;
    assert(lt * lt == l * l * (t * t)) by (nonlinear_arith)
        requires
            lt == l * t,
    ;
    assert(am * am == m * m * (c * c)) by (nonlinear_arith)
        requires
            am == a * m,
            a == c || a == -c,
    ;
}

/// Wrapping brings every coordinate into the world, never lengthens it,
/// leaves a coordinate of the world unchanged, and commutes with negation.
pub proof fn lemma_wrap_coord(c: int)
    ensures
        -WORLD_SIZE <= wrap_coord(c) <= WORLD_SIZE,
        abs_int(wrap_coord(c)) <= abs_int(c),
        -WORLD_SIZE <= c <= WORLD_SIZE ==> wrap_coord(c) == c,
        wrap_coord(-c) == -wrap_coord(c),
        (wrap_coord(c) - c) % (2 * WORLD_SIZE) == 0,
{
    if c > WORLD_SIZE {
        let t = c + WORLD_SIZE - 1;
        assert(t == (2 * WORLD_SIZE) * (t / (2 * WORLD_SIZE)) + t % (2 * WORLD_SIZE)) by {
            vstd::arithmetic::div_mod::lemma_fundamental_div_mod(t, 2 * WORLD_SIZE);
        }
        assert((wrap_coord(c) - c) == (2 * WORLD_SIZE) * (-(t / (2 * WORLD_SIZE))));
        vstd::arithmetic::div_mod::lemma_mod_multiples_basic(-(t / (2 * WORLD_SIZE)), 2 * WORLD_SIZE);
        assert(((2 * WORLD_SIZE) * (-(t / (2 * WORLD_SIZE)))) == (-(t / (2 * WORLD_SIZE))) * (2
            * WORLD_SIZE)) by (nonlinear_arith);
    } else if c < -WORLD_SIZE {
        let t = WORLD_SIZE - 1 - c;
        assert(t == (2 * WORLD_SIZE) * (t / (2 * WORLD_SIZE)) + t % (2 * WORLD_SIZE)) by {
            vstd::arithmetic::div_mod::lemma_fundamental_div_mod(t, 2 * WORLD_SIZE);
        }
        assert((wrap_coord(c) - c) == (2 * WORLD_SIZE) * (t / (2 * WORLD_SIZE)));
        vstd::arithmetic::div_mod::lemma_mod_multiples_basic(t / (2 * WORLD_SIZE), 2 * WORLD_SIZE);
        assert(((2 * WORLD_SIZE) * (t / (2 * WORLD_SIZE))) == (t / (2 * WORLD_SIZE)) * (2
            * WORLD_SIZE)) by (nonlinear_arith);
    } else {
    }
}

/// Wrapping follows the rule of repeated adjustment: a coordinate above the
/// world wraps as the coordinate one world's side lower does, one below the
/// world as the coordinate one side higher.
pub proof fn lemma_wrap_coord_step(c: int)
    ensures
        c > WORLD_SIZE ==> wrap_coord(c) == wrap_coord(c - 2 * WORLD_SIZE),
        c < -WORLD_SIZE ==> wrap_coord(c) == wrap_coord(c + 2 * WORLD_SIZE),
{
    if c > WORLD_SIZE {
        let t = c + WORLD_SIZE - 1;
        vstd::arithmetic::div_mod::lemma_mod_sub_multiples_vanish(t, 2 * WORLD_SIZE);
        if c - 2 * WORLD_SIZE <= WORLD_SIZE {
            vstd::arithmetic::div_mod::lemma_small_mod((t - 2 * WORLD_SIZE) as nat, (2 * WORLD_SIZE) as nat);
        }
    } else if c < -WORLD_SIZE {
        let t = WORLD_SIZE - 1 - c;
        vstd::arithmetic::div_mod::lemma_mod_sub_multiples_vanish(t, 2 * WORLD_SIZE);
        if c + 2 * WORLD_SIZE >= -WORLD_SIZE {
            vstd::arithmetic::div_mod::lemma_small_mod((t - 2 * WORLD_SIZE) as nat, (2 * WORLD_SIZE) as nat);
        }
    }
}

/// Wrapping is idempotent, and its result lies in the world.
pub proof fn lemma_normalize_idempotent(v: Vec2)
    ensures
        v.spec_normalize().spec_normalize() == v.spec_normalize(),
        v.spec_normalize().in_world(),
{
    lemma_wrap_coord(v.x as int);
    lemma_wrap_coord(v.y as int);
    lemma_wrap_coord(wrap_coord(v.x as int));
    lemma_wrap_coord(wrap_coord(v.y as int));
}

/// For two points of the world, the wrap-around distance is at most the
/// straight distance, and equal to it when neither axis is shorter the other
/// way round.
pub proof fn lemma_delta_shortest(a: Vec2, b: Vec2)
    requires
        a.in_world(),
        b.in_world(),
    ensures
        spec_distance(a, b) <= straight_distance(a, b),
        abs_int(b.x - a.x) <= WORLD_SIZE && abs_int(b.y - a.y) <= WORLD_SIZE ==> spec_distance(a, b)
            == straight_distance(a, b),
{
    let dx = b.x - a.x;
    let dy = b.y - a.y;
    let wx = wrap_coord(dx);
    let wy = wrap_coord(dy);
    lemma_wrap_coord(dx);
    lemma_wrap_coord(dy);
    assert(0 <= wx * wx <= dx * dx) by (nonlinear_arith)
        requires
            abs_int(wx) <= abs_int(dx),
    ;
    assert(0 <= wy * wy <= dy * dy) by (nonlinear_arith)
        requires
            abs_int(wy) <= abs_int(dy),
    ;
    lemma_sqrt_floor_monotone(wx * wx + wy * wy, dx * dx + dy * dy);
}

/// The shortest displacement from `b` to `a` is the opposite of the one from
/// `a` to `b`, so the distance is the same both ways.
pub proof fn lemma_delta_symmetric(a: Vec2, b: Vec2)
    ensures
        spec_delta_pos(b, a).x == -spec_delta_pos(a, b).x,
        spec_delta_pos(b, a).y == -spec_delta_pos(a, b).y,
        spec_distance(a, b) == spec_distance(b, a),
        spec_delta_pos(a, b).in_world(),
{
    let dx = b.x - a.x;
    let dy = b.y - a.y;
    lemma_wrap_coord(dx);
    lemma_wrap_coord(dy);
    let wx = wrap_coord(dx);
    let wy = wrap_coord(dy);
    assert((-wx) * (-wx) == wx * wx && (-wy) * (-wy) == wy * wy) by (nonlinear_arith);
}

/// The length of a vector of the world is at most 70_710_679, the world's
/// half-diagonal rounded up.
pub proof fn lemma_len_in_world(v: Vec2)
    requires
        v.in_world(),
    ensures
        0 <= v.spec_len() <= 70_710_679,
{
    lemma_square_bounds(v.x as int, WORLD_SIZE as int);
    lemma_square_bounds(v.y as int, WORLD_SIZE as int);
    let n = v.x * v.x + v.y * v.y;
    assert(WORLD_SIZE * WORLD_SIZE == 2_500_000_000_000_000) by (nonlinear_arith);
    lemma_sqrt_floor(n);
    let r = sqrt_floor(n);
    if r > 70_710_679 {
        assert(r * r >= 70_710_680 * 70_710_680) by (nonlinear_arith)
            requires
                r >= 70_710_680,
        ;
    }
}

/// One coordinate wrapped into the world.
fn wrap_wide(c: i128) -> (r: i64)
    requires
        -0x1_0000_0000_0000_0000_0000_0000_0000 <= c <= 0x1_0000_0000_0000_0000_0000_0000_0000,
    ensures
        r == wrap_coord(c as int),
        -WORLD_SIZE <= r <= WORLD_SIZE,
{
    proof {
        lemma_wrap_coord(c as int);
    }
    let w: i128 = WORLD_SIZE as i128;
    if c > w {
        ((c + w - 1) % (2 * w) - (w - 1)) as i64
    } else if c < -w {
        ((w - 1) - (w - 1 - c) % (2 * w)) as i64
    } else {
        c as i64
    }
}

/// Brings a vector into the world by wrapping both coordinates.
pub fn normalize(v: Vec2) -> (r: Vec2)
    ensures
        r == v.spec_normalize(),
        r.in_world(),
{
    Vec2 { x: wrap_wide(v.x as i128), y: wrap_wide(v.y as i128) }
}

/// The shortest displacement from `a` to `b` on the wrap-around plane.
pub fn delta_pos(a: Vec2, b: Vec2) -> (r: Vec2)
    ensures
        r == spec_delta_pos(a, b),
        r.in_world(),
{
    Vec2 {
        x: wrap_wide((b.x as i128) - (a.x as i128)),
        y: wrap_wide((b.y as i128) - (a.y as i128)),
    }
}

/// The shortest distance between `a` and `b` on the wrap-around plane.
pub fn distance(a: Vec2, b: Vec2) -> (r: i64)
    ensures
        r == spec_distance(a, b),
        0 <= r <= 70_710_679,
{
    let d = delta_pos(a, b);
    proof {
        lemma_len_in_world(d);
    }
    d.len()
}

/// The point reached from `p` by the displacement `d`, wrapped into the
/// world.
pub fn offset(p: Vec2, d: Vec2) -> (r: Vec2)
    ensures
        r == spec_offset(p, d.x as int, d.y as int),
        r.in_world(),
{
    Vec2 {
        x: wrap_wide((p.x as i128) + (d.x as i128)),
        y: wrap_wide((p.y as i128) + (d.y as i128)),
    }
}

/// The point reached from `p` after moving with velocity `v` for the time
/// `dt`, wrapped into the world.
pub fn advance(p: Vec2, v: Vec2, dt: i64) -> (r: Vec2)
    ensures
        r == spec_advance(p, v, dt as int),
        r.in_world(),
{
    proof {
        lemma_wide_product(v.x, dt);
        lemma_wide_product(v.y, dt);
        lemma_div_trunc_bounds(v.x * dt, UNIT as int);
        lemma_div_trunc_bounds(v.y * dt, UNIT as int);
    }
    let dx: i128 = ((v.x as i128) * (dt as i128)) / (UNIT as i128);
    let dy: i128 = ((v.y as i128) * (dt as i128)) / (UNIT as i128);
    Vec2 { x: wrap_wide((p.x as i128) + dx), y: wrap_wide((p.y as i128) + dy) }
}

/// Turns the velocity `vel` toward `target`: the change is the difference of
/// the two, shortened to `max_step` if it is longer.
pub fn steer(vel: Vec2, target: Vec2, max_step: i64) -> (r: Vec2)
    requires
        vel.small(),
        target.small(),
        max_step >= 0,
    ensures
        r == spec_steer(vel, target, max_step as int),
        vel.x <= r.x <= target.x || target.x <= r.x <= vel.x,
        vel.y <= r.y <= target.y || target.y <= r.y <= vel.y,
{
    let d = Vec2 { x: target.x - vel.x, y: target.y - vel.y };
    proof {
        lemma_coords_below_len(d);
        if d.spec_len() > max_step {
            lemma_scaled_coord_bounds(d.x as int, max_step as int, d.spec_len());
            lemma_scaled_coord_bounds(d.y as int, max_step as int, d.spec_len());
        }
    }
    let step = d.clamp(max_step);
    Vec2 { x: vel.x + step.x, y: vel.y + step.y }
}

} // verus!

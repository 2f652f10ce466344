//! Why a collision separates: two overlapping bodies that are pushed apart
//! end up as far from each other as their radii ask, but for what the
//! rounding takes.

use vstd::prelude::*;
use crate::entity::{lemma_positive_square, penetration, push_share, spec_collide, Entity};
use crate::scalar::{
    abs_int, div_trunc, lemma_sqrt_floor, lemma_sqrt_floor_monotone, lemma_sqrt_floor_square,
    sqrt_floor,
};
use crate::space::{
    lemma_coords_below_len, lemma_delta_symmetric, lemma_scaled_coord_bounds, lemma_wrap_coord,
    spec_delta_pos, spec_distance, wrap_coord, WORLD_SIZE,
};

verus! {

/// What the rounding of a collision can take from the distance that the
/// radii ask for, in millionths.
pub const SEPARATION_SLACK: i64 = 10;

/// The two shares of a penetration add up to the penetration, or to one
/// less.
pub proof fn lemma_shares_sum(pen: int, ma: int, mb: int)
    requires
        pen > 0,
        ma > 0,
        mb > 0,
    ensures
        0 <= push_share(pen, ma, mb) <= pen,
        0 <= push_share(pen, mb, ma) <= pen,
        pen - 1 <= push_share(pen, ma, mb) + push_share(pen, mb, ma) <= pen,
{
    let m = ma + mb;
    let x = pen * mb;
    let y = pen * ma;
    let q1 = x / m;
    let q2 = y / m;
    let r1 = x % m;
    let r2 = y % m;
    vstd::arithmetic::div_mod::lemma_fundamental_div_mod(x, m);
    vstd::arithmetic::div_mod::lemma_fundamental_div_mod(y, m);
    assert(0 <= r1 < m && 0 <= r2 < m);
    assert(x >= 0 && y >= 0 && x + y == pen * m) by (nonlinear_arith)
        requires
            x == pen * mb,
            y == pen * ma,
            m == ma + mb,
            pen > 0,
            ma > 0,
            mb > 0,
    ;
    assert(m * (pen - q1 - q2) == r1 + r2) by (nonlinear_arith)
        requires
            x == m * q1 + r1,
            y == m * q2 + r2,
            x + y == pen * m,
    ;
    assert(0 <= pen - q1 - q2 <= 1) by (nonlinear_arith)
        requires
            m * (pen - q1 - q2) == r1 + r2,
            0 <= r1 + r2 < 2 * m,
            m > 0,
    ;
    assert(q1 >= 0 && q2 >= 0) by (nonlinear_arith)
        requires
            x == m * q1 + r1,
            y == m * q2 + r2,
            x >= 0,
            y >= 0,
            0 <= r1 < m,
            0 <= r2 < m,
            m > 0,
    ;
}

/// A coordinate `c` of a vector of length `l`, pushed on by its shares of
/// the lengths `m1` and `m2`, grows in magnitude, by no more than the two
/// lengths, and nearly in proportion.
pub proof fn lemma_pushed_coord(c: int, m1: int, m2: int, l: int)
    requires
        l > 0,
        0 <= m1,
        0 <= m2,
        -l <= c <= l,
    ensures
        ({
            let e = c + div_trunc(c * m1, l) + div_trunc(c * m2, l);
            &&& abs_int(c) <= abs_int(e) <= abs_int(c) + m1 + m2
            &&& abs_int(e) * l >= abs_int(c) * (l + m1 + m2) - 2 * l
        }),
{
    let a = abs_int(c);
    let t1 = (a * m1) / l;
    let t2 = (a * m2) / l;
    assert(a * m1 >= 0 && a * m2 >= 0) by (nonlinear_arith)
        requires
            a >= 0,
            m1 >= 0,
            m2 >= 0,
    ;
    vstd::arithmetic::div_mod::lemma_fundamental_div_mod(a * m1, l);
    vstd::arithmetic::div_mod::lemma_fundamental_div_mod(a * m2, l);
    assert(0 <= t1 <= m1 && l * t1 > a * m1 - l) by (nonlinear_arith)
        requires
            a * m1 == l * t1 + (a * m1) % l,
            0 <= (a * m1) % l < l,
            0 <= a <= l,
            m1 >= 0,
            l > 0,
    ;
    assert(0 <= t2 <= m2 && l * t2 > a * m2 - l) by (nonlinear_arith)
        requires
            a * m2 == l * t2 + (a * m2) % l,
            0 <= (a * m2) % l < l,
            0 <= a <= l,
            m2 >= 0,
            l > 0,
    ;
    if c >= 0 {
        assert(div_trunc(c * m1, l) == t1 && div_trunc(c * m2, l) == t2);
    } else {
        assert(c * m1 == -(a * m1) && c * m2 == -(a * m2)) by (nonlinear_arith)
            requires
                a == -c,
        ;
        assert(div_trunc(c * m1, l) == -t1);
        assert(div_trunc(c * m2, l) == -t2);
    }
    let e = c + div_trunc(c * m1, l) + div_trunc(c * m2, l);
    assert(abs_int(e) == a + t1 + t2);
    assert((a + t1 + t2) * l >= a * (l + m1 + m2) - 2 * l) by (nonlinear_arith)
        requires
            l * t1 > a * m1 - l,
            l * t2 > a * m2 - l,
    ;
}

/// A vector of length `l`, at least 6, whose coordinates `a` and `b` have
/// been stretched nearly in the proportion of `u` to `l`, is nearly `u`
/// long: at least `u - 5`.
pub proof fn lemma_pushed_length(a: int, b: int, x: int, y: int, l: int, u: int)
    requires
        0 <= a,
        0 <= b,
        0 <= x,
        0 <= y,
        6 <= l <= u <= 2 * l,
        l * l <= a * a + b * b < (l + 1) * (l + 1),
        x * l >= a * u - 2 * l,
        y * l >= b * u - 2 * l,
    ensures
        x * x + y * y >= (u - 5) * (u - 5),
{
    let p = a * u - 2 * l;
    let q = b * u - 2 * l;
    if p < 0 {
        assert(a <= 1) by (nonlinear_arith)
            requires
                a * u - 2 * l < 0,
                u >= l,
                l >= 6,
                a >= 0,
        ;
        assert(b >= l) by (nonlinear_arith)
            requires
                l * l <= a * a + b * b,
                0 <= a <= 1,
                b >= 0,
                l >= 6,
        ;
        assert(y >= u - 2) by (nonlinear_arith)
            requires
                y * l >= b * u - 2 * l,
                b >= l,
                u >= l,
                l >= 6,
        ;
        assert(y * y >= (u - 5) * (u - 5)) by (nonlinear_arith)
            requires
                y >= u - 2,
                u >= 6,
        ;
        assert(x * x >= 0) by (nonlinear_arith);
    } else if q < 0 {
        assert(b <= 1) by (nonlinear_arith)
            requires
                b * u - 2 * l < 0,
                u >= l,
                l >= 6,
                b >= 0,
        ;
        assert(a >= l) by (nonlinear_arith)
            requires
                l * l <= a * a + b * b,
                0 <= b <= 1,
                a >= 0,
                l >= 6,
        ;
        assert(x >= u - 2) by (nonlinear_arith)
            requires
                x * l >= a * u - 2 * l,
                a >= l,
                u >= l,
                l >= 6,
        ;
        assert(x * x >= (u - 5) * (u - 5)) by (nonlinear_arith)
            requires
                x >= u - 2,
                u >= 6,
        ;
        assert(y * y >= 0) by (nonlinear_arith);
    } else {
        let s = a + b;
        assert(2 * s <= 3 * l + 3) by (nonlinear_arith)
            requires
                s == a + b,
                a >= 0,
                b >= 0,
                a * a + b * b < (l + 1) * (l + 1),
                l >= 6,
        ;
        assert((x * l) * (x * l) >= p * p) by (nonlinear_arith)
            requires
                x * l >= p,
                p >= 0,
        ;
        assert((y * l) * (y * l) >= q * q) by (nonlinear_arith)
            requires
                y * l >= q,
                q >= 0,
        ;
        let n = a * a + b * b;
        let au = a * u;
        let bu = b * u;
        assert(p * p == au * au - 4 * (au * l) + 4 * (l * l)) by (nonlinear_arith)
            requires
                p == au - 2 * l,
        ;
        assert(q * q == bu * bu - 4 * (bu * l) + 4 * (l * l)) by (nonlinear_arith)
            requires
                q == bu - 2 * l,
        ;
        assert(au * au == u * u * (a * a)) by (nonlinear_arith)
            requires
                au == a * u,
        ;
        assert(bu * bu == u * u * (b * b)) by (nonlinear_arith)
            requires
                bu == b * u,
        ;
        assert(u * u * (a * a) + u * u * (b * b) == u * u * n) by (nonlinear_arith)
            requires
                n == a * a + b * b,
        ;
        assert(au * l + bu * l == l * u * s) by (nonlinear_arith)
            requires
                au == a * u,
                bu == b * u,
                s == a + b,
        ;
        assert(p * p + q * q == u * u * n - 4 * (l * u * s) + 8 * (l * l));
        assert(u * u * n >= u * u * (l * l)) by (nonlinear_arith)
            requires
                n >= l * l,
        ;
        let lu = l * u;
        assert(lu >= 36) by (nonlinear_arith)
            requires
                lu == l * u,
                l >= 6,
                u >= 6,
        ;
        assert(4 * (lu * s) <= 2 * (lu * (3 * l + 3))) by (nonlinear_arith)
            requires
                2 * s <= 3 * l + 3,
                lu >= 0,
        ;
        let goal = l * l * ((u - 5) * (u - 5));
        assert(u * u * (l * l) == lu * lu) by (nonlinear_arith)
            requires
                lu == l * u,
        ;
        assert(goal == lu * lu - 10 * (lu * l) + 25 * (l * l)) by (nonlinear_arith)
            requires
                goal == l * l * ((u - 5) * (u - 5)),
                lu == l * u,
        ;
        assert(lu * (3 * l + 3) == 3 * (lu * l) + 3 * lu) by (nonlinear_arith);
        assert(4 * (lu * l) - 6 * lu - 17 * (l * l) >= 0) by (nonlinear_arith)
            requires
                lu == l * u,
                6 <= l <= u,
        ;
        assert(lu * lu - 2 * (lu * (3 * l + 3)) + 8 * (l * l) >= goal);
        assert((x * l) * (x * l) + (y * l) * (y * l) == l * l * (x * x + y * y))
            by (nonlinear_arith);
        assert(x * x + y * y >= (u - 5) * (u - 5)) by (nonlinear_arith)
            requires
                l * l * (x * x + y * y) >= l * l * ((u - 5) * (u - 5)),
                l >= 6,
        ;
    }
}

/// Two coordinates of the world that differ by whole worlds have the same
/// square.
pub proof fn lemma_same_square(e: int, d: int)
    requires
        -WORLD_SIZE <= e <= WORLD_SIZE,
        -WORLD_SIZE <= d <= WORLD_SIZE,
        (d - e) % (2 * WORLD_SIZE) == 0,
    ensures
        d * d == e * e,
{
    vstd::arithmetic::div_mod::lemma_fundamental_div_mod(d - e, 2 * WORLD_SIZE);
    let k = (d - e) / (2 * WORLD_SIZE);
    assert(d - e == 100_000_000 * k) by (nonlinear_arith)
        requires
            d - e == (2 * WORLD_SIZE) * k + 0,
            WORLD_SIZE == 50_000_000,
    ;
    assert(d == e || (d == 50_000_000 && e == -50_000_000) || (d == -50_000_000 && e
        == 50_000_000));
    assert(d * d == e * e) by (nonlinear_arith)
        requires
            d == e || d == -e,
    ;
}

/// The distance along one axis between two points after one has been moved
/// back by `ua` and the other on by `ub` is, up to whole worlds, the
/// distance before and the two moves.
pub proof fn lemma_pushed_delta(p: int, q: int, ua: int, ub: int)
    ensures
        (wrap_coord(wrap_coord(q + ub) - wrap_coord(p - ua)) - (wrap_coord(q - p) + ua + ub)) % (2
            * WORLD_SIZE) == 0,
{
    let c1 = q + ub;
    let c2 = p - ua;
    let c3 = wrap_coord(c1) - wrap_coord(c2);
    let c4 = q - p;
    lemma_wrap_coord(c1);
    lemma_wrap_coord(c2);
    lemma_wrap_coord(c3);
    lemma_wrap_coord(c4);
    let w = 2 * WORLD_SIZE;
    vstd::arithmetic::div_mod::lemma_fundamental_div_mod(wrap_coord(c1) - c1, w);
    vstd::arithmetic::div_mod::lemma_fundamental_div_mod(wrap_coord(c2) - c2, w);
    vstd::arithmetic::div_mod::lemma_fundamental_div_mod(wrap_coord(c3) - c3, w);
    vstd::arithmetic::div_mod::lemma_fundamental_div_mod(wrap_coord(c4) - c4, w);
    let k1 = (wrap_coord(c1) - c1) / w;
    let k2 = (wrap_coord(c2) - c2) / w;
    let k3 = (wrap_coord(c3) - c3) / w;
    let k4 = (wrap_coord(c4) - c4) / w;
    let k = k1 - k2 + k3 - k4;
    assert(wrap_coord(c3) - (wrap_coord(c4) + ua + ub) == k * w) by (nonlinear_arith)
        requires
            wrap_coord(c1) - c1 == w * k1 + 0,
            wrap_coord(c2) - c2 == w * k2 + 0,
            wrap_coord(c3) - c3 == w * k3 + 0,
            wrap_coord(c4) - c4 == w * k4 + 0,
            c1 == q + ub,
            c2 == p - ua,
            c3 == wrap_coord(c1) - wrap_coord(c2),
            c4 == q - p,
            k == k1 - k2 + k3 - k4,
    ;
    vstd::arithmetic::div_mod::lemma_mod_multiples_basic(k, w);
}

/// A collision does not depend on the order of the two bodies: with the
/// bodies exchanged, each comes out as it does otherwise.
pub proof fn lemma_collide_symmetric(a: Entity, b: Entity)
    requires
        a.wf(),
        b.wf(),
    ensures
        spec_collide(b, a).0 == spec_collide(a, b).1,
        spec_collide(b, a).1 == spec_collide(a, b).0,
{
    lemma_delta_symmetric(a.pos, b.pos);
    lemma_delta_symmetric(b.pos, a.pos);
    let d = spec_delta_pos(a.pos, b.pos);
    let r = spec_delta_pos(b.pos, a.pos);
    assert(r.x * r.x == d.x * d.x && r.y * r.y == d.y * d.y) by (nonlinear_arith)
        requires
            r.x == -d.x,
            r.y == -d.y,
    ;
    let pen = penetration(a, b);
    assert(penetration(b, a) == pen);
    if pen > 0 {
        let l = d.spec_len();
        assert(d.x * d.x + d.y * d.y >= 0) by (nonlinear_arith);
        lemma_sqrt_floor(d.x * d.x + d.y * d.y);
        let m1 = push_share(pen, a.spec_mass(), b.spec_mass());
        let m2 = push_share(pen, b.spec_mass(), a.spec_mass());
        lemma_positive_square(a.size as int);
        lemma_positive_square(b.size as int);
        lemma_shares_sum(pen, a.spec_mass(), b.spec_mass());
        if l > 0 {
            lemma_coords_below_len(d);
            lemma_scaled_coord_bounds(d.x as int, m1, l);
            lemma_scaled_coord_bounds(d.y as int, m1, l);
            lemma_scaled_coord_bounds(d.x as int, m2, l);
            lemma_scaled_coord_bounds(d.y as int, m2, l);
            crate::scalar::lemma_div_trunc_bounds(d.x * m1, l);
            crate::scalar::lemma_div_trunc_bounds(d.y * m1, l);
            crate::scalar::lemma_div_trunc_bounds(d.x * m2, l);
            crate::scalar::lemma_div_trunc_bounds(d.y * m2, l);
            assert(r.x * m1 == -(d.x * m1) && r.y * m1 == -(d.y * m1) && r.x * m2 == -(d.x * m2)
                && r.y * m2 == -(d.y * m2)) by (nonlinear_arith)
                requires
                    r.x == -d.x,
                    r.y == -d.y,
            ;
        }
    }
}

/// A collision separates. Two bodies that overlap, by no more than the
/// smaller radius, and whose radii together are at most half the world's
/// side, are after the collision as far from each other as the sum of their
/// radii, but for `SEPARATION_SLACK`.
pub proof fn lemma_collide_separates(a: Entity, b: Entity)
    requires
        a.wf(),
        b.wf(),
        a.size + b.size <= WORLD_SIZE,
        0 < a.size + b.size - spec_distance(a.pos, b.pos),
        a.size + b.size - spec_distance(a.pos, b.pos) <= a.size,
        a.size + b.size - spec_distance(a.pos, b.pos) <= b.size,
    ensures
        spec_distance(spec_collide(a, b).0.pos, spec_collide(a, b).1.pos) >= a.size + b.size
            - SEPARATION_SLACK,
{
    let d = spec_delta_pos(a.pos, b.pos);
    lemma_delta_symmetric(a.pos, b.pos);
    let n = d.x * d.x + d.y * d.y;
    assert(n >= 0) by (nonlinear_arith)
        requires
            n == d.x * d.x + d.y * d.y,
    ;
    lemma_sqrt_floor(n);
    let l = sqrt_floor(n);
    let pen = a.size + b.size - l;
    assert(penetration(a, b) == pen);
    lemma_positive_square(a.size as int);
    lemma_positive_square(b.size as int);
    let ma = a.spec_mass();
    let mb = b.spec_mass();
    let m1 = push_share(pen, ma, mb);
    let m2 = push_share(pen, mb, ma);
    lemma_shares_sum(pen, ma, mb);
    lemma_shares_sum(pen, mb, ma);
    lemma_coords_below_len(d);
    lemma_scaled_coord_bounds(d.x as int, m1, l);
    lemma_scaled_coord_bounds(d.y as int, m1, l);
    lemma_scaled_coord_bounds(d.x as int, m2, l);
    lemma_scaled_coord_bounds(d.y as int, m2, l);
    let da = d.spec_with_len(m1);
    let db = d.spec_with_len(m2);
    assert(da.x == div_trunc(d.x * m1, l) && da.y == div_trunc(d.y * m1, l));
    assert(db.x == div_trunc(d.x * m2, l) && db.y == div_trunc(d.y * m2, l));
    let after = spec_collide(a, b);
    let ex = d.x + da.x + db.x;
    let ey = d.y + da.y + db.y;
    lemma_pushed_coord(d.x as int, m1, m2, l);
    lemma_pushed_coord(d.y as int, m1, m2, l);
    lemma_wrap_coord(a.pos.x - da.x);
    lemma_wrap_coord(a.pos.y - da.y);
    lemma_wrap_coord(b.pos.x + db.x);
    lemma_wrap_coord(b.pos.y + db.y);
    lemma_wrap_coord(b.pos.x - a.pos.x);
    lemma_wrap_coord(b.pos.y - a.pos.y);
    let d2 = spec_delta_pos(after.0.pos, after.1.pos);
    lemma_delta_symmetric(after.0.pos, after.1.pos);
    lemma_pushed_delta(a.pos.x as int, b.pos.x as int, da.x as int, db.x as int);
    lemma_pushed_delta(a.pos.y as int, b.pos.y as int, da.y as int, db.y as int);
    assert(after.0.pos.x == wrap_coord(a.pos.x - da.x));
    assert(after.1.pos.x == wrap_coord(b.pos.x + db.x));
    assert(d2.x == wrap_coord(after.1.pos.x - after.0.pos.x));
    assert(d2.y == wrap_coord(after.1.pos.y - after.0.pos.y));
    lemma_wrap_coord(after.1.pos.x - after.0.pos.x);
    lemma_wrap_coord(after.1.pos.y - after.0.pos.y);
    lemma_same_square(ex, d2.x as int);
    lemma_same_square(ey, d2.y as int);
    let n2 = d2.x * d2.x + d2.y * d2.y;
    assert(n2 >= 0) by (nonlinear_arith)
        requires
            n2 == d2.x * d2.x + d2.y * d2.y,
    ;
    lemma_sqrt_floor(n2);
    if l >= 6 {
        let u = l + m1 + m2;
        let ax = abs_int(d.x as int);
        let ay = abs_int(d.y as int);
        assert(ax * ax == d.x * d.x && ay * ay == d.y * d.y) by (nonlinear_arith)
            requires
                ax == abs_int(d.x as int),
                ay == abs_int(d.y as int),
        ;
        lemma_pushed_length(ax, ay, abs_int(ex), abs_int(ey), l, u);
        assert(abs_int(ex) * abs_int(ex) == ex * ex && abs_int(ey) * abs_int(ey) == ey * ey)
            by (nonlinear_arith);
        lemma_sqrt_floor_square(u - 5);
        lemma_sqrt_floor_monotone((u - 5) * (u - 5), n2);
    }
}

} // verus!

//! The physical body shared by everything in the world: a disc with a
//! position, a velocity and a radius, whose mass is the square of the radius.

use vstd::prelude::*;
use crate::color::Color;
use crate::scalar::{
    clamp_int, div_trunc, isqrt, lemma_div_trunc_bounds, lemma_mul_bounds, lemma_sqrt_floor,
    lemma_sqrt_floor_monotone, lemma_sqrt_floor_square, lemma_wide_product, sqrt_floor, UNIT,
};
use crate::space::{
    advance, delta_pos, distance, lemma_square_bounds, offset, spec_advance, spec_delta_pos,
    spec_distance, spec_offset, Vec2,
};

verus! {

/// The largest radius a body can have.
pub const SIZE_MAX: i64 = 1_000_000_000;

/// The mass of a body of radius `SIZE_MAX`, the largest mass there is.
pub const MASS_MAX: i128 = 1_000_000_000_000_000_000;

/// One disc to draw: where, how large, in which colour.
#[derive(Clone, Copy, PartialEq, Eq, Structural, Debug)]
pub struct ParticleInstance {
    pub i_pos: Vec2,
    pub i_size: i64,
    pub i_color: Color,
}

/// A body of the world.
#[derive(Clone, Copy, PartialEq, Eq, Structural, Debug)]
pub struct Entity {
    /// The player that this body is or belongs to; `None` for neutral bodies.
    pub owner_id: Option<usize>,
    pub color: Color,
    pub pos: Vec2,
    pub vel: Vec2,
    /// The radius.
    pub size: i64,
}

/// The radius of a body of radius `size` whose mass has changed by `delta`:
/// the root of the new mass, which is held between zero and `MASS_MAX`.
pub open spec fn grown_size(size: int, delta: int) -> int {
    sqrt_floor(clamp_int(size * size + delta, 0, MASS_MAX as int))
}

/// How deep two bodies overlap: the sum of the radii less the distance of
/// the centres, but no more than the smaller radius. Positive when they
/// touch.
pub open spec fn penetration(a: Entity, b: Entity) -> int {
    let overlap = a.size + b.size - spec_distance(a.pos, b.pos);
    let cap = if a.size <= b.size { a.size as int } else { b.size as int };
    if overlap <= cap {
        overlap
    } else {
        cap
    }
}

/// The part of the overlap `pen` by which a body of mass `own` gives way to
/// one of mass `other`: the heavier a body, the less it moves.
pub open spec fn push_share(pen: int, own: int, other: int) -> int {
    (pen * other) / (own + other)
}

/// The two bodies after they have been pushed apart.
pub open spec fn spec_collide(a: Entity, b: Entity) -> (Entity, Entity) {
    let pen = penetration(a, b);
    if pen > 0 {
        let d = spec_delta_pos(a.pos, b.pos);
        let da = d.spec_with_len(push_share(pen, a.spec_mass(), b.spec_mass()));
        let db = d.spec_with_len(push_share(pen, b.spec_mass(), a.spec_mass()));
        (
            Entity { pos: spec_offset(a.pos, -da.x, -da.y), ..a },
            Entity { pos: spec_offset(b.pos, db.x as int, db.y as int), ..b },
        )
    } else {
        (a, b)
    }
}

/// The mass that `target` loses when `attacker` touches it: the target's
/// radius shrinks by the penetration.
pub open spec fn mass_lost(attacker: Entity, target: Entity) -> int {
    let pen = penetration(attacker, target);
    if pen > 0 {
        target.size * target.size - (target.size - pen) * (target.size - pen)
    } else {
        0
    }
}

/// The target after `attacker` has touched it.
pub open spec fn shrunk(attacker: Entity, target: Entity) -> Entity {
    let pen = penetration(attacker, target);
    if pen > 0 {
        Entity { size: (target.size - pen) as i64, ..target }
    } else {
        target
    }
}

/// The attacker after a hit: it pays the mass that the target lost, divided
/// by `k`.
pub open spec fn spec_hit_attacker(attacker: Entity, target: Entity, k: int) -> Entity {
    if penetration(attacker, target) > 0 {
        Entity {
            size: grown_size(
                attacker.size as int,
                -div_trunc(mass_lost(attacker, target) * UNIT, k),
            ) as i64,
            ..attacker
        }
    } else {
        attacker
    }
}

/// The consumer after eating: it gains the mass that the target lost,
/// multiplied by `k`.
pub open spec fn spec_consumer(consumer: Entity, target: Entity, k: int) -> Entity {
    if penetration(consumer, target) > 0 {
        Entity {
            size: grown_size(
                consumer.size as int,
                div_trunc(mass_lost(consumer, target) * k, UNIT as int),
            ) as i64,
            ..consumer
        }
    } else {
        consumer
    }
}

impl Entity {
    /// The radius is not negative and at most `SIZE_MAX`.
    pub open spec fn wf(self) -> bool {
        0 <= self.size <= SIZE_MAX
    }

    /// The mass: the square of the radius.
    pub open spec fn spec_mass(self) -> int {
        self.size * self.size
    }

    /// The body after the time `dt`: moved along its velocity and wrapped
    /// into the world.
    pub open spec fn moved(self, dt: int) -> Entity {
        Entity { pos: spec_advance(self.pos, self.vel, dt), ..self }
    }

    /// The body with its mass changed by `delta`.
    pub open spec fn with_mass_added(self, delta: int) -> Entity {
        Entity { size: grown_size(self.size as int, delta) as i64, ..self }
    }

    /// The disc that shows this body.
    pub open spec fn instance(self) -> ParticleInstance {
        ParticleInstance { i_pos: self.pos, i_size: self.size, i_color: self.color }
    }

    /// Whether the body is well-formed.
    pub fn is_valid(&self) -> (valid: bool)
        ensures
            valid == self.wf(),
    {
        0 <= self.size && self.size <= SIZE_MAX
    }

    /// Appends the disc that shows this body.
    pub fn draw(&self, buffer: &mut Vec<ParticleInstance>)
        ensures
            final(buffer)@ == old(buffer)@.push(self.instance()),
    {
        buffer.push(ParticleInstance { i_pos: self.pos, i_size: self.size, i_color: self.color });
    }

    /// The mass: the square of the radius.
    pub fn mass(&self) -> (m: i128)
        ensures
            m == self.spec_mass(),
            0 <= m <= 0x4000_0000_0000_0000_0000_0000_0000_0000,
            self.wf() ==> m <= MASS_MAX,
    {
        proof {
            lemma_wide_product(self.size, self.size);
            lemma_square_bounds(self.size as int, 0x8000_0000_0000_0000);
            if self.wf() {
                lemma_square_bounds(self.size as int, SIZE_MAX as int);
                assert(SIZE_MAX * SIZE_MAX == MASS_MAX) by (nonlinear_arith);
            }
        }
        (self.size as i128) * (self.size as i128)
    }

    /// Changes the mass by `delta` and sets the radius to the root of the new
    /// mass. The mass never falls below zero nor rises above `MASS_MAX`.
    pub fn add_mass(&mut self, delta: i128)
        ensures
            *final(self) == old(self).with_mass_added(delta as int),
            final(self).size == grown_size(old(self).size as int, delta as int),
            final(self).wf(),
    {
        let m = self.mass();
        let new_mass: i128 = if delta >= MASS_MAX {
            MASS_MAX
        } else if delta <= -m {
            0
        } else if m + delta > MASS_MAX {
            MASS_MAX
        } else {
            m + delta
        };
        proof {
            lemma_grown_size_bounds(self.size as int, delta as int);
        }
        self.size = isqrt(new_mass as u128) as i64;
    }

    /// Moves the body along its velocity for the time `delta_time` and wraps
    /// it into the world.
    pub fn update(&mut self, delta_time: i64)
        ensures
            *final(self) == old(self).moved(delta_time as int),
            final(self).pos.in_world(),
    {
        self.pos = advance(self.pos, self.vel, delta_time);
    }

    /// How deep the two bodies overlap.
    fn overlap(a: &Entity, b: &Entity) -> (pen: i64)
        requires
            a.wf(),
            b.wf(),
        ensures
            pen == penetration(*a, *b),
            pen <= a.size,
            pen <= b.size,
    {
        let overlap = (a.size + b.size) - distance(a.pos, b.pos);
        let cap = if a.size <= b.size { a.size } else { b.size };
        if overlap <= cap {
            overlap
        } else {
            cap
        }
    }

    /// The part of the overlap by which a body of the mass `own` gives way
    /// to one of the mass `other`.
    fn share(pen: i64, own: i128, other: i128) -> (r: i64)
        requires
            0 < pen <= SIZE_MAX,
            0 <= own <= MASS_MAX,
            0 <= other <= MASS_MAX,
            own + other > 0,
        ensures
            r == push_share(pen as int, own as int, other as int),
            0 <= r <= pen,
    {
        proof {
            lemma_mul_bounds(pen as int, SIZE_MAX as int, other as int, MASS_MAX as int);
            assert(SIZE_MAX * MASS_MAX == 1_000_000_000_000_000_000_000_000_000) by (nonlinear_arith);
            assert(0 <= pen * other && (pen * other) / (own + other) <= pen) by (nonlinear_arith)
                requires
                    pen > 0,
                    own >= 0,
                    other >= 0,
                    own + other > 0,
            ;
            assert((pen * other) / (own + other) >= 0) by (nonlinear_arith)
                requires
                    pen * other >= 0,
                    own + other > 0,
            ;
        }
        (((pen as i128) * other) / (own + other)) as i64
    }

    /// Pushes two overlapping bodies apart along the line of their centres.
    /// Each gives way by its share of the penetration, the heavier one less.
    /// Velocities stay as they are.
    pub fn collide(a: &mut Self, b: &mut Self)
        requires
            old(a).wf(),
            old(b).wf(),
        ensures
            (*final(a), *final(b)) == spec_collide(*old(a), *old(b)),
            final(a).wf(),
            final(b).wf(),
            final(a).pos.in_world() || final(a).pos == old(a).pos,
            final(b).pos.in_world() || final(b).pos == old(b).pos,
    {
        let pen = Self::overlap(a, b);
        if pen > 0 {
            let d = delta_pos(a.pos, b.pos);
            let ma = a.mass();
            let mb = b.mass();
            proof {
                lemma_positive_square(a.size as int);
            }
            let da = d.with_len(Self::share(pen, ma, mb));
            let db = d.with_len(Self::share(pen, mb, ma));
            a.pos = offset(a.pos, Vec2 { x: -da.x, y: -da.y });
            b.pos = offset(b.pos, db);
        }
    }

    /// Lets this body strike `target`. Where they overlap, the target's
    /// radius shrinks by the penetration, and this body loses the mass that
    /// the target lost, divided by `k`. Returns whether they touched.
    pub fn hit(&mut self, target: &mut Self, k: i64) -> (contact: bool)
        requires
            old(self).wf(),
            old(target).wf(),
            k > 0,
        ensures
            contact == (penetration(*old(self), *old(target)) > 0),
            *final(target) == shrunk(*old(self), *old(target)),
            *final(self) == spec_hit_attacker(*old(self), *old(target), k as int),
            final(self).wf(),
            final(target).wf(),
            final(target).size <= old(target).size,
            final(self).size <= old(self).size,
    {
        let pen = Self::overlap(self, target);
        if pen > 0 {
            let prev_mass = target.mass();
            target.size = target.size - pen;
            let delta_mass = prev_mass - target.mass();
            proof {
                lemma_mass_lost_bounds(old(target).size as int, pen as int);
                lemma_mul_bounds(delta_mass as int, MASS_MAX as int, UNIT as int, UNIT as int);
                assert(MASS_MAX * UNIT == 1_000_000_000_000_000_000_000_000) by (nonlinear_arith);
                lemma_div_trunc_bounds(delta_mass * UNIT, k as int);
                lemma_grown_size_bounds(self.size as int, -div_trunc(delta_mass * UNIT, k as int));
                lemma_shrinking(self.size as int, -div_trunc(delta_mass * UNIT, k as int));
            }
            self.add_mass(-((delta_mass * (UNIT as i128)) / (k as i128)));
            true
        } else {
            false
        }
    }

    /// Lets this body eat from `target`. Where they overlap, the target's
    /// radius shrinks by the penetration, and this body gains the mass that
    /// the target lost, multiplied by `k`.
    pub fn consume(&mut self, target: &mut Self, k: i64)
        requires
            old(self).wf(),
            old(target).wf(),
        ensures
            *final(target) == shrunk(*old(self), *old(target)),
            *final(self) == spec_consumer(*old(self), *old(target), k as int),
            final(self).wf(),
            final(target).wf(),
            final(target).size <= old(target).size,
    {
        let pen = Self::overlap(self, target);
        if pen > 0 {
            let prev_mass = target.mass();
            target.size = target.size - pen;
            let delta_mass = prev_mass - target.mass();
            proof {
                lemma_mass_lost_bounds(old(target).size as int, pen as int);
                lemma_mul_bounds(
                    delta_mass as int,
                    MASS_MAX as int,
                    k as int,
                    0x8000_0000_0000_0000,
                );
                assert(MASS_MAX * 0x8000_0000_0000_0000 < 0x4000_0000_0000_0000_0000_0000_0000_0000)
                    by (nonlinear_arith);
                lemma_div_trunc_bounds(delta_mass * k, UNIT as int);
                lemma_grown_size_bounds(self.size as int, div_trunc(delta_mass * k, UNIT as int));
            }
            self.add_mass((delta_mass * (k as i128)) / (UNIT as i128));
        }
    }
}

/// The square of a positive number is positive.
pub proof fn lemma_positive_square(a: int)
    by (nonlinear_arith)
    requires
        a > 0,
    ensures
        a * a > 0,
{
}

/// A radius that shrinks by `pen` loses a mass between zero and the mass
/// that it had.
pub proof fn lemma_mass_lost_bounds(size: int, pen: int)
    by (nonlinear_arith)
    requires
        0 <= pen <= size <= SIZE_MAX,
    ensures
        0 <= size * size - (size - pen) * (size - pen) <= size * size,
        size * size <= SIZE_MAX * SIZE_MAX,
        pen > 0 ==> size * size - (size - pen) * (size - pen) > 0,
{
}

/// A change of mass never leaves a negative radius, nor one above
/// `SIZE_MAX`: for every radius and every change, the new radius lies
/// between zero and `SIZE_MAX`, and its square is the new mass rounded down
/// to a square.
pub proof fn lemma_grown_size_bounds(size: int, delta: int)
    ensures
        0 <= grown_size(size, delta) <= SIZE_MAX,
        grown_size(size, delta) * grown_size(size, delta) <= clamp_int(
            size * size + delta,
            0,
            MASS_MAX as int,
        ),
        clamp_int(size * size + delta, 0, MASS_MAX as int) < (grown_size(size, delta) + 1) * (
        grown_size(size, delta) + 1),
{
    let m = clamp_int(size * size + delta, 0, MASS_MAX as int);
    lemma_sqrt_floor(m);
    lemma_sqrt_floor_monotone(m, MASS_MAX as int);
    assert(SIZE_MAX * SIZE_MAX == MASS_MAX) by (nonlinear_arith);
    lemma_sqrt_floor_square(SIZE_MAX as int);
}

/// A body that loses mass does not grow.
pub proof fn lemma_shrinking(size: int, delta: int)
    requires
        0 <= size <= SIZE_MAX,
        delta <= 0,
    ensures
        grown_size(size, delta) <= size,
{
    lemma_square_bounds(size, SIZE_MAX as int);
    assert(SIZE_MAX * SIZE_MAX == MASS_MAX) by (nonlinear_arith);
    let m = clamp_int(size * size + delta, 0, MASS_MAX as int);
    lemma_sqrt_floor_monotone(m, size * size);
    lemma_sqrt_floor_square(size);
}

} // verus!

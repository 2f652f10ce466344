//! Food: a body at rest that players eat, shown as a cluster of small parts
//! that spread out from the centre when the food appears.

use vstd::prelude::*;
use crate::color::{mix, spec_mix, Color};
use crate::entity::{Entity, ParticleInstance, MASS_MAX, SIZE_MAX};
use crate::rng::{random_between, random_circle_point};
use crate::scalar::{
    div_trunc, isqrt, lemma_div_trunc_bounds, lemma_mul_bounds, lemma_ratio_bounds,
    lemma_sqrt_floor, sqrt_floor, UNIT,
};
use crate::space::{lemma_square_bounds, offset, spec_offset, Vec2};

verus! {

/// The mass that one part of a food stands for.
pub const PREFERRED_MASS: i128 = 20_000_000_000;

/// How far the red and blue of a part may rise from zero, and its green
/// fall from full.
pub const COLOR_OFF: i64 = 300_000;

/// How fast the parts spread: the spreading takes a third of a second.
pub const SPREAD_SPEED: i64 = 3;

/// One part of a food: where it ends up, as a point of the unit circle to be
/// scaled by the food's radius, and the small body that is drawn.
#[derive(Clone, Copy, PartialEq, Eq, Structural, Debug)]
pub struct FoodPart {
    pub offset: Vec2,
    pub entity: Entity,
}

/// A food: its body, its parts, and how far the parts have spread, from 0
/// to `UNIT`.
pub struct Food {
    pub entity: Entity,
    pub parts: Vec<FoodPart>,
    pub time: i64,
}

/// The number of parts of a food of the given radius: its mass in units of
/// `PREFERRED_MASS`, rounded up.
pub open spec fn part_count(size: int) -> int {
    (size * size + PREFERRED_MASS - 1) / (PREFERRED_MASS as int)
}

/// The radius of each of `count` parts of a food of the given radius: the
/// parts together have the food's mass.
pub open spec fn part_size(size: int, count: int) -> int {
    if count > 0 {
        (size * UNIT) / sqrt_floor(count * UNIT * UNIT)
    } else {
        0
    }
}

/// How far the parts have moved out after the spreading has run for `time`
/// of its duration `UNIT`: fast at first, then ever slower.
pub open spec fn spread(time: int) -> int {
    UNIT - ((UNIT - time) * (UNIT - time)) / (UNIT as int)
}

/// Where a part with the given offset lies, for a food at `pos` of radius
/// `size` whose spreading has run for `time`.
pub open spec fn part_pos(pos: Vec2, size: int, part_offset: Vec2, time: int) -> Vec2 {
    let reach = div_trunc(size * spread(time), UNIT as int);
    spec_offset(
        pos,
        div_trunc(part_offset.x * reach, UNIT as int),
        div_trunc(part_offset.y * reach, UNIT as int),
    )
}

/// The time of spreading after a step of `dt`.
pub open spec fn spread_time(time: int, dt: int) -> int {
    if time + dt * SPREAD_SPEED >= UNIT {
        UNIT as int
    } else {
        time + dt * SPREAD_SPEED
    }
}

/// The two discs that show one part: a dark rim a tenth larger than the
/// part, and the part itself.
pub open spec fn part_instances(part: FoodPart) -> Seq<ParticleInstance> {
    seq![
        ParticleInstance {
            i_pos: part.entity.pos,
            i_size: ((part.entity.size * 11) / 10) as i64,
            i_color: spec_mix(Color { r: 0, g: 0, b: 0, a: UNIT }, part.entity.color),
        },
        part.entity.instance(),
    ]
}

/// The discs that show the given parts, part by part.
pub open spec fn parts_instances(parts: Seq<FoodPart>) -> Seq<ParticleInstance>
    decreases parts.len(),
{
    if parts.len() == 0 {
        Seq::empty()
    } else {
        parts_instances(parts.drop_last()) + part_instances(parts.last())
    }
}

impl FoodPart {
    /// The offset is a point of the unit circle and the body is well-formed.
    pub open spec fn wf(self) -> bool {
        self.offset.within(UNIT as int) && self.entity.wf()
    }

    /// `self` is a part as a new food at `pos` of radius `size` with `count`
    /// parts has them: at rest at the food's centre, neutral, of the radius
    /// of a part, of some green, with an offset inside the unit circle.
    pub open spec fn fresh(self, pos: Vec2, size: int, count: int) -> bool {
        &&& self.offset.spec_len() < UNIT
        &&& self.offset.within(UNIT as int)
        &&& self.entity.owner_id.is_none()
        &&& self.entity.pos == pos
        &&& self.entity.vel == (Vec2 { x: 0, y: 0 })
        &&& self.entity.size == part_size(size, count)
        &&& 0 <= self.entity.color.r <= COLOR_OFF
        &&& UNIT - COLOR_OFF <= self.entity.color.g <= UNIT
        &&& 0 <= self.entity.color.b <= COLOR_OFF
        &&& self.entity.color.a == UNIT
    }

    /// The part moved to where it lies for a food at `pos` of radius `size`
    /// whose spreading has run for `time`.
    pub open spec fn placed(self, pos: Vec2, size: int, time: int) -> FoodPart {
        FoodPart { entity: Entity { pos: part_pos(pos, size, self.offset, time), ..self.entity }, ..self }
    }
}

impl Food {
    /// The body and the parts are well-formed, and the time of spreading
    /// lies between 0 and `UNIT`.
    pub open spec fn wf(self) -> bool {
        &&& self.entity.wf()
        &&& 0 <= self.time <= UNIT
        &&& forall|i: int| 0 <= i < self.parts@.len() ==> (#[trigger] self.parts@[i]).wf()
    }

    /// This food is a new one at `pos` with the radius `size`: green, at
    /// rest, with its parts gathered at the centre.
    pub open spec fn is_new(self, pos: Vec2, size: int) -> bool {
        &&& self.entity == (Entity {
            owner_id: None,
            color: Color { r: 0, g: UNIT, b: 0, a: UNIT },
            pos,
            vel: Vec2 { x: 0, y: 0 },
            size: size as i64,
        })
        &&& self.time == 0
        &&& self.parts@.len() == part_count(size)
        &&& forall|i: int|
            0 <= i < self.parts@.len() ==> (#[trigger] self.parts@[i]).fresh(
                pos,
                size,
                part_count(size),
            )
    }

    /// `later` is this food after a step of the time `dt`: its parts have
    /// spread further out from the centre.
    pub open spec fn stepped(self, later: Food, dt: int) -> bool {
        &&& later.entity == self.entity
        &&& later.time == spread_time(self.time as int, dt)
        &&& later.parts@.len() == self.parts@.len()
        &&& forall|i: int|
            0 <= i < later.parts@.len() ==> #[trigger] later.parts@[i] == self.parts@[i].placed(
                self.entity.pos,
                self.entity.size as int,
                later.time as int,
            )
    }

    /// Whether the food is well-formed.
    pub fn is_valid(&self) -> (valid: bool)
        ensures
            valid == self.wf(),
    {
        if !self.entity.is_valid() || self.time < 0 || self.time > UNIT {
            return false;
        }
        let mut i: usize = 0;
        while i < self.parts.len()
            invariant
                i <= self.parts@.len(),
                forall|j: int| 0 <= j < i ==> (#[trigger] self.parts@[j]).wf(),
            decreases self.parts@.len() - i,
        {
            let part = &self.parts[i];
            let inside = -UNIT <= part.offset.x && part.offset.x <= UNIT && -UNIT <= part.offset.y
                && part.offset.y <= UNIT;
            if !inside || !part.entity.is_valid() {
                return false;
            }
            i = i + 1;
        }
        true
    }

    /// The number of parts of a food of the given radius.
    fn count_parts(size: i64) -> (count: usize)
        requires
            0 <= size <= SIZE_MAX,
        ensures
            count == part_count(size as int),
            count <= 50_000_000,
            size > 0 ==> count > 0,
    {
        proof {
            lemma_square_bounds(size as int, SIZE_MAX as int);
            assert(SIZE_MAX * SIZE_MAX == MASS_MAX) by (nonlinear_arith);
            if size > 0 {
                crate::entity::lemma_positive_square(size as int);
            }
        }
        let mass: i128 = (size as i128) * (size as i128);
        ((mass + PREFERRED_MASS - 1) / PREFERRED_MASS) as usize
    }

    /// The radius of each of `count` parts of a food of the given radius.
    fn size_of_part(size: i64, count: usize) -> (r: i64)
        requires
            0 <= size <= SIZE_MAX,
            count <= 50_000_000,
        ensures
            r == part_size(size as int, count as int),
            0 <= r <= SIZE_MAX,
    {
        if count == 0 {
            return 0;
        }
        let scaled: u128 = (count as u128) * 1_000_000_000_000;
        let root = isqrt(scaled);
        proof {
            assert(count * UNIT * UNIT == scaled) by (nonlinear_arith)
                requires
                    scaled == count * 1_000_000_000_000,
                    UNIT == 1_000_000,
            ;
            lemma_sqrt_floor(scaled as int);
            if root < UNIT {
                assert((root + 1) * (root + 1) <= UNIT * UNIT) by (nonlinear_arith)
                    requires
                        0 <= root,
                        root + 1 <= UNIT,
                ;
                assert(UNIT * UNIT == 1_000_000_000_000) by (nonlinear_arith);
            }
            assert(0 <= (size * UNIT) / (root as int) <= size) by (nonlinear_arith)
                requires
                    0 <= size,
                    root >= UNIT,
                    UNIT > 0,
            ;
        }
        ((size as i128 * UNIT as i128) / (root as i128)) as i64
    }

    /// A food at `pos` with the radius `size`, its parts still gathered at
    /// the centre. Each part gets a random offset and a random green.
    pub fn new(pos: Vec2, size: i64) -> (food: Food)
        requires
            0 <= size <= SIZE_MAX,
        ensures
            food.wf(),
            food.is_new(pos, size as int),
    {
        let count = Self::count_parts(size);
        let each = Self::size_of_part(size, count);
        let mut parts: Vec<FoodPart> = Vec::new();
        let mut i: usize = 0;
        while i < count
            invariant
                i <= count,
                parts@.len() == i,
                count == part_count(size as int),
                each == part_size(size as int, count as int),
                0 <= each <= SIZE_MAX,
                forall|j: int|
                    0 <= j < parts@.len() ==> (#[trigger] parts@[j]).fresh(
                        pos,
                        size as int,
                        count as int,
                    ) && parts@[j].wf(),
            decreases count - i,
        {
            let part = FoodPart {
                offset: random_circle_point(),
                entity: Entity {
                    owner_id: None,
                    color: Color::rgb(
                        random_between(0, COLOR_OFF),
                        random_between(UNIT - COLOR_OFF, UNIT),
                        random_between(0, COLOR_OFF),
                    ),
                    pos,
                    vel: Vec2 { x: 0, y: 0 },
                    size: each,
                },
            };
            parts.push(part);
            i = i + 1;
        }
        Food {
            entity: Entity { owner_id: None, color: Color::green(), pos, vel: Vec2 { x: 0, y: 0 }, size },
            parts,
            time: 0,
        }
    }

    /// Where a part with the given offset lies.
    fn place(pos: Vec2, size: i64, part_offset: Vec2, time: i64) -> (r: Vec2)
        requires
            0 <= size <= SIZE_MAX,
            0 <= time <= UNIT,
            part_offset.within(UNIT as int),
        ensures
            r == part_pos(pos, size as int, part_offset, time as int),
    {
        proof {
            lemma_square_bounds((UNIT - time) as int, UNIT as int);
            assert(UNIT * UNIT == 1_000_000_000_000) by (nonlinear_arith);
            lemma_ratio_bounds((UNIT - time) as int, (UNIT - time) as int, UNIT as int);
        }
        let gap = UNIT - time;
        let out = UNIT - (gap * gap) / UNIT;
        proof {
            assert(0 <= (gap * gap) / (UNIT as int) <= UNIT) by (nonlinear_arith)
                requires
                    0 <= gap * gap <= UNIT * UNIT,
                    UNIT == 1_000_000,
            ;
            lemma_ratio_bounds(size as int, out as int, UNIT as int);
            lemma_mul_bounds(size as int, SIZE_MAX as int, out as int, UNIT as int);
        }
        let reach = (size * out) / UNIT;
        proof {
            lemma_mul_bounds(part_offset.x as int, UNIT as int, reach as int, SIZE_MAX as int);
            lemma_mul_bounds(part_offset.y as int, UNIT as int, reach as int, SIZE_MAX as int);
            lemma_div_trunc_bounds(part_offset.x * reach, UNIT as int);
            lemma_div_trunc_bounds(part_offset.y * reach, UNIT as int);
        }
        offset(pos, Vec2 { x: (part_offset.x * reach) / UNIT, y: (part_offset.y * reach) / UNIT })
    }

    /// One step of time: the parts spread further out from the centre.
    pub fn update(&mut self, delta_time: i64)
        requires
            old(self).wf(),
            0 <= delta_time,
        ensures
            final(self).wf(),
            old(self).stepped(*final(self), delta_time as int),
    {
        let spread_to: i128 = (self.time as i128) + (delta_time as i128) * (SPREAD_SPEED as i128);
        self.time = if spread_to >= UNIT as i128 {
            UNIT
        } else {
            spread_to as i64
        };
        let mut i: usize = 0;
        while i < self.parts.len()
            invariant
                i <= self.parts@.len(),
                self.entity == old(self).entity,
                self.entity.wf(),
                0 <= self.time <= UNIT,
                self.time == spread_time(old(self).time as int, delta_time as int),
                self.parts@.len() == old(self).parts@.len(),
                forall|j: int| 0 <= j < self.parts@.len() ==> (#[trigger] self.parts@[j]).wf(),
                forall|j: int| i <= j < self.parts@.len() ==> self.parts@[j] == old(self).parts@[j],
                forall|j: int|
                    0 <= j < i ==> #[trigger] self.parts@[j] == old(self).parts@[j].placed(
                        self.entity.pos,
                        self.entity.size as int,
                        self.time as int,
                    ),
            decreases self.parts@.len() - i,
        {
            let mut part = self.parts[i];
            part.entity.pos = Self::place(self.entity.pos, self.entity.size, part.offset, self.time);
            self.parts.set(i, part);
            i = i + 1;
        }
    }

    /// Appends the discs that show the food: for each part a dark rim, then
    /// the part.
    pub fn draw(&self, particles: &mut Vec<ParticleInstance>)
        requires
            self.wf(),
        ensures
            final(particles)@ == old(particles)@ + parts_instances(self.parts@),
    {
        let mut i: usize = 0;
        while i < self.parts.len()
            invariant
                i <= self.parts@.len(),
                self.wf(),
                particles@ == old(particles)@ + parts_instances(self.parts@.take(i as int)),
            decreases self.parts@.len() - i,
        {
            let part = self.parts[i];
            particles.push(
                ParticleInstance {
                    i_pos: part.entity.pos,
                    i_color: mix(Color::black(), part.entity.color),
                    i_size: (part.entity.size * 11) / 10,
                },
            );
            part.entity.draw(particles);
            proof {
                assert(self.parts@.take(i + 1).drop_last() =~= self.parts@.take(i as int));
                assert(particles@ =~= old(particles)@ + parts_instances(self.parts@.take(i + 1)));
            }
            i = i + 1;
        }
        proof {
            assert(self.parts@.take(i as int) =~= self.parts@);
        }
    }
}

} // verus!

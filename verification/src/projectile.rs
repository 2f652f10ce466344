//! Projectiles: bodies that a player charges and lets fly, trailing sparks.

use vstd::prelude::*;
use crate::color::{mix, spec_mix, Color};
use crate::entity::{Entity, ParticleInstance};
use crate::rng::{random_between, random_circle_point};
use crate::scalar::{div_trunc, lemma_div_trunc_bounds, lemma_mul_bounds, UNIT};
use crate::space::Vec2;

verus! {

/// The time between two sparks of a projectile of mass 1.
pub const SPARK_PERIOD: i64 = 2_000;

/// The speed below which every spark flies off.
pub const SPARK_MAX_SPEED: i64 = 5_000_000;

/// The age at which a spark goes out.
pub const SPARK_LIFE: i64 = 300_000;

/// A spark: a neutral body with an age. It carries no weight in the game.
#[derive(Clone, Copy, PartialEq, Eq, Structural, Debug)]
pub struct Spark {
    pub age: i64,
    pub entity: Entity,
}

/// A projectile: its body, the sparks it has thrown, and the time until the
/// next spark is due.
pub struct Projectile {
    pub entity: Entity,
    pub sparks: Vec<Spark>,
    pub next_spark: i64,
    /// Whether the body still had a radius when `poll_hit_sound` last looked.
    pub prev_alive: bool,
    /// Whether the projectile has struck a player.
    pub actually_hit: bool,
}

/// The opacity of a spark of the given age: one half at birth, fading evenly
/// to nothing at `SPARK_LIFE`.
pub open spec fn spark_alpha(age: int) -> int {
    div_trunc((SPARK_LIFE - age) * UNIT, 2 * SPARK_LIFE)
}

/// The spark that a body throws in the direction `direction`, a point of the
/// unit circle, with the radius `size`.
pub open spec fn spark_from(body: Entity, direction: Vec2, size: i64) -> Spark {
    Spark {
        age: 0,
        entity: Entity {
            owner_id: None,
            color: spec_mix(Color { r: UNIT, g: UNIT, b: UNIT, a: UNIT }, body.color),
            pos: body.pos,
            vel: direction.spec_scale(SPARK_MAX_SPEED as int),
            size,
        },
    }
}

/// `spark` may have been thrown by `body`: it is new and neutral, starts at
/// the body's centre, is slower than `SPARK_MAX_SPEED` and has between half
/// the body's radius and all of it.
pub open spec fn thrown_by(body: Entity, spark: Spark) -> bool {
    exists|direction: Vec2, size: i64|
        direction.spec_len() < UNIT && direction.within(UNIT as int) && body.size / 2 <= size
            <= body.size && spark == #[trigger] spark_from(body, direction, size)
}

/// The sparks of `sparks` that are still alight after the time `dt`, each
/// moved, aged and faded.
pub open spec fn spec_age_sparks(sparks: Seq<Spark>, dt: int) -> Seq<Spark>
    decreases sparks.len(),
{
    if sparks.len() == 0 {
        Seq::empty()
    } else {
        let rest = spec_age_sparks(sparks.drop_last(), dt);
        let last = sparks.last().aged(dt);
        if last.age < SPARK_LIFE {
            rest.push(last)
        } else {
            rest
        }
    }
}

/// The spark timer of a body of radius `size` after the time `dt`, before
/// any spark is thrown: it runs down faster the heavier the body.
pub open spec fn spark_timer(next_spark: int, size: int, dt: int) -> int {
    next_spark - (dt * (size * size)) / (UNIT * UNIT)
}

/// How many sparks are due when the timer stands at `timer`: none while it
/// is not negative or the body has no radius, else one for each period that
/// it takes to bring the timer back to zero or above.
pub open spec fn sparks_due(timer: int, size: int) -> int {
    if size > 0 && timer < 0 {
        (-timer + SPARK_PERIOD - 1) / (SPARK_PERIOD as int)
    } else {
        0
    }
}

/// The age of a spark of the age `age` after the time `dt`: it grows with
/// the time, up to `SPARK_LIFE`, at which the spark goes out.
pub open spec fn spark_age(age: int, dt: int) -> int {
    if age + dt < SPARK_LIFE {
        age + dt
    } else {
        SPARK_LIFE as int
    }
}

/// All sparks of the sequence are well-formed.
pub open spec fn sparks_wf(sparks: Seq<Spark>) -> bool {
    forall|i: int| 0 <= i < sparks.len() ==> (#[trigger] sparks[i]).wf()
}

impl Spark {
    /// The spark is younger than `SPARK_LIFE` and its body is well-formed.
    pub open spec fn wf(self) -> bool {
        0 <= self.age < SPARK_LIFE && self.entity.wf()
    }

    /// The spark after the time `dt`: older, moved on, and more faded.
    pub open spec fn aged(self, dt: int) -> Spark {
        let moved = self.entity.moved(dt);
        Spark {
            age: spark_age(self.age as int, dt) as i64,
            entity: Entity {
                color: Color {
                    a: spark_alpha(spark_age(self.age as int, dt)) as i64,
                    ..moved.color
                },
                ..moved
            },
        }
    }

    /// Whether the spark is well-formed.
    pub fn is_valid(&self) -> (valid: bool)
        ensures
            valid == self.wf(),
    {
        0 <= self.age && self.age < SPARK_LIFE && self.entity.is_valid()
    }

    /// Lets the time `delta_time` pass for the spark: it moves on, grows
    /// older, up to `SPARK_LIFE`, and fades.
    pub fn update(&mut self, delta_time: i64)
        requires
            old(self).wf(),
            0 <= delta_time,
        ensures
            *final(self) == old(self).aged(delta_time as int),
            0 <= final(self).age <= SPARK_LIFE,
            final(self).entity.wf(),
    {
        self.age = if delta_time < SPARK_LIFE - self.age {
            self.age + delta_time
        } else {
            SPARK_LIFE
        };
        self.entity.update(delta_time);
        proof {
            lemma_mul_bounds(
                (SPARK_LIFE - self.age) as int,
                SPARK_LIFE as int,
                UNIT as int,
                UNIT as int,
            );
            lemma_div_trunc_bounds((SPARK_LIFE - self.age) * UNIT, 2 * SPARK_LIFE);
        }
        self.entity.color.a = ((SPARK_LIFE - self.age) * UNIT) / (2 * SPARK_LIFE);
    }
}

impl Projectile {
    /// The body and every spark are well-formed.
    pub open spec fn wf(self) -> bool {
        self.entity.wf() && sparks_wf(self.sparks@)
    }

    /// The discs that show the projectile: its body, then its sparks.
    pub open spec fn instances(self) -> Seq<ParticleInstance> {
        seq![self.entity.instance()] + self.sparks@.map_values(|s: Spark| s.entity.instance())
    }

    /// `later` is what this projectile may be after its sparks for the time
    /// `dt` were thrown: the same but for the timer and for the sparks that
    /// were due, which follow the earlier ones.
    pub open spec fn thrown(self, later: Projectile, dt: int) -> bool {
        let timer = spark_timer(self.next_spark as int, self.entity.size as int, dt);
        let due = sparks_due(timer, self.entity.size as int);
        &&& later.entity == self.entity
        &&& later.prev_alive == self.prev_alive
        &&& later.actually_hit == self.actually_hit
        &&& later.next_spark == timer + due * SPARK_PERIOD
        &&& later.sparks@.len() == self.sparks@.len() + due
        &&& later.sparks@.take(self.sparks@.len() as int) == self.sparks@
        &&& forall|i: int|
            self.sparks@.len() <= i < later.sparks@.len() ==> thrown_by(
                self.entity,
                #[trigger] later.sparks@[i],
            )
    }

    /// Whether the projectile is well-formed.
    pub fn is_valid(&self) -> (valid: bool)
        ensures
            valid == self.wf(),
    {
        if !self.entity.is_valid() {
            return false;
        }
        let mut i: usize = 0;
        while i < self.sparks.len()
            invariant
                i <= self.sparks@.len(),
                forall|j: int| 0 <= j < i ==> (#[trigger] self.sparks@[j]).wf(),
            decreases self.sparks@.len() - i,
        {
            if !self.sparks[i].is_valid() {
                return false;
            }
            i = i + 1;
        }
        true
    }

    /// A projectile without radius, at rest at the origin.
    pub fn new(owner_id: Option<usize>, color: Color) -> (p: Projectile)
        ensures
            p.wf(),
            p.entity == (Entity {
                owner_id,
                color,
                pos: Vec2 { x: 0, y: 0 },
                vel: Vec2 { x: 0, y: 0 },
                size: 0,
            }),
            p.sparks@.len() == 0,
            p.next_spark == 0,
            p.prev_alive,
            !p.actually_hit,
    {
        Projectile {
            entity: Entity {
                owner_id,
                color,
                pos: Vec2 { x: 0, y: 0 },
                vel: Vec2 { x: 0, y: 0 },
                size: 0,
            },
            sparks: Vec::new(),
            next_spark: 0,
            prev_alive: true,
            actually_hit: false,
        }
    }

    /// Whether the projectile stays in the world: while its body has a
    /// radius, and after that until its last spark has gone out.
    pub fn alive(&self) -> (alive: bool)
        ensures
            alive == (self.entity.size > 0 || self.sparks@.len() > 0),
    {
        self.entity.size > 0 || self.sparks.len() > 0
    }

    /// Whether the sound of a hit is due: once, when the body is first seen
    /// without radius after the projectile has struck a player. The call
    /// remembers what it saw.
    pub fn poll_hit_sound(&mut self) -> (due: bool)
        ensures
            due == (old(self).actually_hit && (old(self).entity.size > 0) != old(self).prev_alive),
            final(self).prev_alive == (old(self).entity.size > 0),
            final(self).entity == old(self).entity,
            final(self).sparks == old(self).sparks,
            final(self).next_spark == old(self).next_spark,
            final(self).actually_hit == old(self).actually_hit,
    {
        let alive = self.entity.size > 0;
        if alive != self.prev_alive {
            self.prev_alive = alive;
            self.actually_hit
        } else {
            false
        }
    }

    /// Throws one spark in the direction `direction`, a point of the unit
    /// circle, with the radius `size`.
    pub fn push_spark(&mut self, direction: Vec2, size: i64)
        requires
            old(self).wf(),
            direction.within(UNIT as int),
            0 <= size <= old(self).entity.size,
        ensures
            final(self).sparks@ == old(self).sparks@.push(
                spark_from(old(self).entity, direction, size),
            ),
            final(self).entity == old(self).entity,
            final(self).next_spark == old(self).next_spark,
            final(self).prev_alive == old(self).prev_alive,
            final(self).actually_hit == old(self).actually_hit,
            final(self).wf(),
    {
        proof {
            lemma_mul_bounds(
                direction.x as int,
                UNIT as int,
                SPARK_MAX_SPEED as int,
                SPARK_MAX_SPEED as int,
            );
            lemma_mul_bounds(
                direction.y as int,
                UNIT as int,
                SPARK_MAX_SPEED as int,
                SPARK_MAX_SPEED as int,
            );
            lemma_div_trunc_bounds(direction.x * SPARK_MAX_SPEED, UNIT as int);
            lemma_div_trunc_bounds(direction.y * SPARK_MAX_SPEED, UNIT as int);
        }
        let spark = Spark {
            age: 0,
            entity: Entity {
                owner_id: None,
                color: mix(Color::white(), self.entity.color),
                pos: self.entity.pos,
                vel: direction.scale(SPARK_MAX_SPEED),
                size,
            },
        };
        self.sparks.push(spark);
    }

    /// Runs the spark timer down by the time `delta_time` and throws the
    /// sparks that are due, each in a random direction and of a random
    /// radius.
    pub fn emit_sparks(&mut self, delta_time: i64)
        requires
            old(self).wf(),
            0 <= delta_time,
        ensures
            old(self).thrown(*final(self), delta_time as int),
            final(self).wf(),
    {
        let mass = self.entity.mass();
        proof {
            lemma_mul_bounds(
                delta_time as int,
                0x8000_0000_0000_0000,
                mass as int,
                crate::entity::MASS_MAX as int,
            );
            assert(0x8000_0000_0000_0000 * crate::entity::MASS_MAX
                < 0x4000_0000_0000_0000_0000_0000_0000_0000) by (nonlinear_arith);
            assert((delta_time * mass) / (UNIT * UNIT) >= 0 && (delta_time * mass) / (UNIT * UNIT)
                <= delta_time * mass) by (nonlinear_arith)
                requires
                    delta_time * mass >= 0,
            ;
        }
        let ghost start = *self;
        let ghost budget = spark_timer(
            self.next_spark as int,
            self.entity.size as int,
            delta_time as int,
        );
        let mut timer: i128 = (self.next_spark as i128) - ((delta_time as i128) * mass) / ((UNIT
            as i128) * (UNIT as i128));
        assert(self.entity.size == 0 ==> budget == self.next_spark) by (nonlinear_arith)
            requires
                budget == self.next_spark - (delta_time * (self.entity.size * self.entity.size)) / (
                UNIT * UNIT),
        ;
        while timer < 0 && self.entity.size > 0
            invariant
                self.wf(),
                start.entity.size == 0 ==> budget == start.next_spark,
                start.entity.size == 0 ==> self.sparks@.len() == start.sparks@.len(),
                -0x4000_0000_0000_0000_0000_0000_0000_0000 <= budget,
                self.entity == start.entity,
                self.prev_alive == start.prev_alive,
                self.actually_hit == start.actually_hit,
                self.next_spark == start.next_spark,
                self.sparks@.len() >= start.sparks@.len(),
                self.sparks@.take(start.sparks@.len() as int) == start.sparks@,
                timer == budget + (self.sparks@.len() - start.sparks@.len()) * SPARK_PERIOD,
                timer < SPARK_PERIOD || self.sparks@.len() == start.sparks@.len(),
                budget <= i64::MAX,
                forall|i: int|
                    start.sparks@.len() <= i < self.sparks@.len() ==> thrown_by(
                        start.entity,
                        #[trigger] self.sparks@[i],
                    ),
            decreases (if timer < 0 { -timer } else { 0 }),
        {
            timer = timer + (SPARK_PERIOD as i128);
            let direction = random_circle_point();
            let size = random_between(self.entity.size / 2, self.entity.size);
            let ghost before = self.sparks@;
            self.push_spark(direction, size);
            proof {
                assert(self.sparks@.take(start.sparks@.len() as int) =~= before.take(
                    start.sparks@.len() as int,
                ));
                assert(thrown_by(start.entity, spark_from(start.entity, direction, size)));
            }
        }
        proof {
            let thrown = self.sparks@.len() - start.sparks@.len();
            assert(timer == budget + thrown * 2000);
            assert(thrown == sparks_due(budget, start.entity.size as int));
        }
        self.next_spark = timer as i64;
    }

    /// Lets the time `delta_time` pass for every spark and drops those that
    /// have gone out.
    pub fn age_sparks(&mut self, delta_time: i64)
        requires
            old(self).wf(),
            0 <= delta_time,
        ensures
            final(self).sparks@ == spec_age_sparks(old(self).sparks@, delta_time as int),
            final(self).sparks@.len() <= old(self).sparks@.len(),
            final(self).entity == old(self).entity,
            final(self).next_spark == old(self).next_spark,
            final(self).prev_alive == old(self).prev_alive,
            final(self).actually_hit == old(self).actually_hit,
            final(self).wf(),
    {
        let mut kept: Vec<Spark> = Vec::new();
        let mut i: usize = 0;
        while i < self.sparks.len()
            invariant
                i <= self.sparks@.len(),
                *self == *old(self),
                self.wf(),
                0 <= delta_time,
                kept@ == spec_age_sparks(self.sparks@.take(i as int), delta_time as int),
                kept@.len() <= i,
                sparks_wf(kept@),
            decreases self.sparks@.len() - i,
        {
            let mut spark = self.sparks[i];
            spark.update(delta_time);
            proof {
                assert(self.sparks@.take(i + 1).drop_last() =~= self.sparks@.take(i as int));
            }
            if spark.age < SPARK_LIFE {
                kept.push(spark);
            }
            i = i + 1;
        }
        proof {
            assert(self.sparks@.take(i as int) =~= self.sparks@);
        }
        self.sparks = kept;
    }

    /// `later` is what this projectile may be after one step of the time
    /// `dt`: the body has moved, the sparks that were due have been thrown,
    /// and all sparks have aged.
    pub open spec fn stepped(self, later: Projectile, dt: int) -> bool {
        &&& later.entity == self.entity.moved(dt)
        &&& later.prev_alive == self.prev_alive
        &&& later.actually_hit == self.actually_hit
        &&& exists|thrown: Projectile|
            {
                &&& (Projectile { entity: self.entity.moved(dt), ..self }).thrown(thrown, dt)
                &&& later.next_spark == thrown.next_spark
                &&& later.sparks@ == #[trigger] spec_age_sparks(thrown.sparks@, dt)
            }
    }

    /// One step of time: the body moves, the sparks that are due are thrown,
    /// and all sparks age; those that go out are dropped. The radius and the
    /// velocity stay as they are.
    pub fn update(&mut self, delta_time: i64)
        requires
            old(self).wf(),
            0 <= delta_time,
        ensures
            final(self).wf(),
            old(self).stepped(*final(self), delta_time as int),
            final(self).sparks@.len() <= old(self).sparks@.len() + sparks_due(
                spark_timer(
                    old(self).next_spark as int,
                    old(self).entity.size as int,
                    delta_time as int,
                ),
                old(self).entity.size as int,
            ),
    {
        self.entity.update(delta_time);
        let ghost moved = *self;
        self.emit_sparks(delta_time);
        let ghost thrown = *self;
        self.age_sparks(delta_time);
        proof {
            assert(moved == (Projectile {
                entity: old(self).entity.moved(delta_time as int),
                ..*old(self)
            }));
            assert(moved.thrown(thrown, delta_time as int));
            assert(self.sparks@ == spec_age_sparks(thrown.sparks@, delta_time as int));
        }
    }

    /// Appends the discs that show the projectile: its body, then its
    /// sparks.
    pub fn draw(&self, particles: &mut Vec<ParticleInstance>)
        ensures
            final(particles)@ == old(particles)@ + self.instances(),
    {
        self.entity.draw(particles);
        let mut i: usize = 0;
        while i < self.sparks.len()
            invariant
                i <= self.sparks@.len(),
                particles@ == old(particles)@ + self.instances().take(i + 1),
            decreases self.sparks@.len() - i,
        {
            self.sparks[i].entity.draw(particles);
            proof {
                assert(self.instances().take(i + 2) =~= self.instances().take(i + 1).push(
                    self.sparks@[i as int].entity.instance(),
                ));
            }
            i = i + 1;
        }
        proof {
            assert(self.instances().take(i + 1) =~= self.instances());
        }
    }
}

} // verus!

//! The phases of a step that deal with food: new food appears, food
//! spreads its parts, players eat, and what is eaten up goes.

use vstd::prelude::*;
use crate::body::{bodies_of, gather, scatter, with_bodies};
use crate::combat::{lemma_player_bodies_wf, lemma_players_with_bodies};
use crate::entity::Entity;
use crate::food::Food;
use crate::game::{
    foods_wf, Game, FOOD_K, FOOD_SIZE_MAX, FOOD_SIZE_MIN, FOOD_SPAWN_MAX, FOOD_SPAWN_MIN, MAX_FOOD,
};
use crate::pairs::{bodies_wf, meal, spec_meal};
use crate::rng::{random_between, random_position};
use crate::scalar::{lemma_mul_bounds, UNIT};
use crate::sound::{SoundCue, SoundKind};
use crate::space::WORLD_SIZE;

verus! {

/// The radius of a new food for the random number `r` between 0 and
/// `UNIT`: the fourth power of `r` decides how far the radius lies above
/// the smallest, so that most foods are small.
pub open spec fn spec_food_size(r: int) -> int {
    let square = r * r / (UNIT as int);
    let fourth = square * square / (UNIT as int);
    FOOD_SIZE_MIN + fourth * (FOOD_SIZE_MAX - FOOD_SIZE_MIN) / (UNIT as int)
}

/// The test that a food has something left to eat.
pub open spec fn has_substance() -> spec_fn(Food) -> bool {
    |f: Food| f.entity.size > 0
}

/// `food` is one that the timer has brought: a new food somewhere in the
/// world, of a radius from `FOOD_SIZE_MIN` up to but not `FOOD_SIZE_MAX`.
pub open spec fn timely(food: Food) -> bool {
    &&& food.is_new(food.entity.pos, food.entity.size as int)
    &&& -WORLD_SIZE <= food.entity.pos.x < WORLD_SIZE
    &&& -WORLD_SIZE <= food.entity.pos.y < WORLD_SIZE
    &&& FOOD_SIZE_MIN <= food.entity.size < FOOD_SIZE_MAX
}

/// The sounds of the foods that have been eaten up, in their order, each
/// where its food is.
pub open spec fn heal_sounds(food: Seq<Food>) -> Seq<SoundCue>
    decreases food.len(),
{
    if food.len() == 0 {
        Seq::empty()
    } else {
        let rest = heal_sounds(food.drop_last());
        if food.last().entity.size <= 0 {
            rest.push(SoundCue { kind: SoundKind::Heal, pos: food.last().entity.pos })
        } else {
            rest
        }
    }
}

/// The radius of a new food for the random number `r`.
pub fn food_size(r: i64) -> (size: i64)
    requires
        0 <= r <= UNIT,
    ensures
        size == spec_food_size(r as int),
        FOOD_SIZE_MIN <= size <= FOOD_SIZE_MAX,
        r < UNIT ==> size < FOOD_SIZE_MAX,
{
    proof {
        lemma_mul_bounds(r as int, UNIT as int, r as int, UNIT as int);
        assert(r * r >= 0) by (nonlinear_arith);
    }
    let square = r * r / UNIT;
    proof {
        assert(UNIT * UNIT == 1_000_000_000_000) by (nonlinear_arith);
        assert(r < UNIT ==> r * r <= (UNIT - 1) * (UNIT - 1)) by (nonlinear_arith)
            requires
                0 <= r,
        ;
        assert((UNIT - 1) * (UNIT - 1) == 999_998_000_001) by (nonlinear_arith);
        lemma_mul_bounds(square as int, UNIT as int, square as int, UNIT as int);
        assert(square * square >= 0) by (nonlinear_arith);
        assert(square < UNIT ==> square * square <= (UNIT - 1) * (UNIT - 1)) by (nonlinear_arith)
            requires
                0 <= square,
        ;
    }
    let fourth = square * square / UNIT;
    proof {
        lemma_mul_bounds(
            fourth as int,
            UNIT as int,
            (FOOD_SIZE_MAX - FOOD_SIZE_MIN) as int,
            (FOOD_SIZE_MAX - FOOD_SIZE_MIN) as int,
        );
        assert(fourth * (FOOD_SIZE_MAX - FOOD_SIZE_MIN) >= 0) by (nonlinear_arith)
            requires
                fourth >= 0,
                FOOD_SIZE_MAX - FOOD_SIZE_MIN == 400_000,
        ;
        assert(fourth < UNIT ==> fourth * (FOOD_SIZE_MAX - FOOD_SIZE_MIN) <= (UNIT - 1) * 400_000)
            by (nonlinear_arith)
            requires
                fourth >= 0,
                FOOD_SIZE_MAX - FOOD_SIZE_MIN == 400_000,
        ;
    }
    FOOD_SIZE_MIN + fourth * (FOOD_SIZE_MAX - FOOD_SIZE_MIN) / UNIT
}

/// Foods that get other bodies, no larger than before, stay well-formed.
pub proof fn lemma_foods_with_bodies(food: Seq<Food>, bodies: Seq<Entity>)
    requires
        foods_wf(food),
        bodies_wf(bodies),
        bodies.len() == food.len(),
    ensures
        foods_wf(with_bodies(food, bodies)),
{
    let after = with_bodies(food, bodies);
    assert forall|i: int| 0 <= i < after.len() implies (#[trigger] after[i]).wf() by {
        assert(food[i].wf());
        assert(bodies[i].wf());
    }
}

/// The bodies of well-formed foods are well-formed.
pub proof fn lemma_food_bodies_wf(food: Seq<Food>)
    requires
        foods_wf(food),
    ensures
        bodies_wf(bodies_of(food)),
{
    assert forall|i: int| 0 <= i < food.len() implies (#[trigger] bodies_of(food)[i]).wf() by {
        assert(food[i].wf());
    }
}

impl Game {
    /// `after` is what the food timer may make of this world in the time
    /// `dt`. While the timer has not run out, nothing happens but that it
    /// runs. When it runs out it is set anew, by a random time each round
    /// until it is no longer negative, and each round brings one food while
    /// there are fewer than `MAX_FOOD`.
    pub open spec fn food_spawned(self, after: Game, dt: int) -> bool {
        let due = self.next_food - dt;
        &&& after == (Game { food: after.food, next_food: after.next_food, ..self })
        &&& after.food@.len() >= self.food@.len()
        &&& after.food@.take(self.food@.len() as int) == self.food@
        &&& forall|k: int|
            self.food@.len() <= k < after.food@.len() ==> timely(#[trigger] after.food@[k])
        &&& if due >= 0 {
            after.next_food == due && after.food@.len() == self.food@.len()
        } else {
            &&& 0 <= after.next_food < FOOD_SPAWN_MAX
            &&& after.food@.len() - self.food@.len() <= (-due + FOOD_SPAWN_MIN - 1) / (
            FOOD_SPAWN_MIN as int)
            &&& after.food@.len() <= MAX_FOOD || after.food@.len() == self.food@.len()
            &&& self.food@.len() < MAX_FOOD ==> after.food@.len() > self.food@.len()
        }
    }

    /// `after` is this world after every food has taken its step of the
    /// time `dt`.
    pub open spec fn food_stepped(self, after: Game, dt: int) -> bool {
        &&& after == (Game { food: after.food, ..self })
        &&& after.food@.len() == self.food@.len()
        &&& forall|i: int|
            0 <= i < self.food@.len() ==> #[trigger] self.food@[i].stepped(after.food@[i], dt)
    }

    /// `after` and `cues` are this world after every player has eaten from
    /// every food, and the sounds of the foods eaten up.
    pub open spec fn players_fed(self, after: Game, cues: Seq<SoundCue>) -> bool {
        let m = spec_meal(bodies_of(self.players@), bodies_of(self.food@), FOOD_K as int);
        &&& after == (Game { players: after.players, food: after.food, ..self })
        &&& after.players@ == with_bodies(self.players@, m.eaters)
        &&& after.food@ == with_bodies(self.food@, m.dishes)
        &&& cues == heal_sounds(after.food@)
    }

    /// `after` is this world without the foods that are eaten up.
    pub open spec fn food_cleared(self, after: Game) -> bool {
        &&& after == (Game { food: after.food, ..self })
        &&& after.food@ == self.food@.filter(has_substance())
        &&& after.food@.len() <= self.food@.len()
    }

    /// Runs the food timer for the time `delta_time` and brings the foods
    /// that are due, each at a random place and of a random radius.
    pub fn spawn_food(&mut self, delta_time: i64)
        requires
            old(self).wf(),
            0 <= delta_time,
        ensures
            final(self).wf(),
            old(self).food_spawned(*final(self), delta_time as int),
    {
        let ghost due = self.next_food - delta_time;
        let ghost rounds = 0int;
        self.next_food = self.next_food - delta_time;
        while self.next_food < 0
            invariant
                *self == (Game { food: self.food, next_food: self.next_food, ..*old(self) }),
                foods_wf(self.food@),
                -0x7fff_ffff_ffff_ffff <= due,
                due == old(self).next_food - delta_time,
                self.food@.len() >= old(self).food@.len(),
                self.food@.take(old(self).food@.len() as int) == old(self).food@,
                forall|k: int|
                    old(self).food@.len() <= k < self.food@.len() ==>
                        timely(#[trigger] self.food@[k]),
                due >= 0 ==> self.next_food == due && rounds == 0,
                due < 0 ==> due + rounds * FOOD_SPAWN_MIN <= self.next_food < FOOD_SPAWN_MAX,
                rounds == 0 ==> self.next_food == due,
                0 <= rounds,
                self.food@.len() - old(self).food@.len() <= rounds,
                self.food@.len() <= MAX_FOOD || self.food@.len() == old(self).food@.len(),
                rounds > 0 && old(self).food@.len() < MAX_FOOD ==> self.food@.len() > old(
                    self,
                ).food@.len(),
                self.next_food <= FOOD_SPAWN_MAX,
                rounds > 0 ==> due + (rounds - 1) * 50_000 < 0,
            decreases (if self.next_food < 0 { -self.next_food } else { 0 }),
        {
            proof {
                assert(rounds * FOOD_SPAWN_MIN == rounds * 50_000) by (nonlinear_arith)
                    requires
                        FOOD_SPAWN_MIN == 50_000,
                ;
            }
            self.next_food = self.next_food + random_between(FOOD_SPAWN_MIN, FOOD_SPAWN_MAX - 1);
            if self.food.len() < MAX_FOOD {
                let pos = random_position(WORLD_SIZE);
                let size = food_size(random_between(0, UNIT - 1));
                let ghost before = self.food@;
                self.food.push(Food::new(pos, size));
                proof {
                    assert(self.food@.take(old(self).food@.len() as int) =~= before.take(
                        old(self).food@.len() as int,
                    ));
                }
            }
            proof {
                rounds = rounds + 1;
                assert(due + rounds * FOOD_SPAWN_MIN <= self.next_food) by (nonlinear_arith)
                    requires
                        due + (rounds - 1) * FOOD_SPAWN_MIN + FOOD_SPAWN_MIN <= self.next_food,
                ;
            }
        }
        proof {
            if due < 0 {
                assert(self.next_food >= 0);
                assert(rounds * FOOD_SPAWN_MIN == rounds * 50_000) by (nonlinear_arith)
                    requires
                        FOOD_SPAWN_MIN == 50_000,
                ;
                assert(rounds > 0);
                assert(rounds <= (-due + 49_999) / 50_000);
            }
        }
    }

    /// The step of every food: its parts spread further out.
    pub fn step_food(&mut self, delta_time: i64)
        requires
            old(self).wf(),
            0 <= delta_time,
        ensures
            final(self).wf(),
            old(self).food_stepped(*final(self), delta_time as int),
    {
        let mut i: usize = 0;
        while i < self.food.len()
            invariant
                i <= self.food@.len(),
                0 <= delta_time,
                self.food@.len() == old(self).food@.len(),
                *self == (Game { food: self.food, ..*old(self) }),
                foods_wf(self.food@),
                forall|j: int| i <= j < self.food@.len() ==> self.food@[j] == old(self).food@[j],
                forall|j: int|
                    0 <= j < i ==> #[trigger] old(self).food@[j].stepped(
                        self.food@[j],
                        delta_time as int,
                    ),
            decreases self.food@.len() - i,
        {
            assert(self.food@[i as int].wf());
            let food = &mut self.food[i];
            food.update(delta_time);
            i = i + 1;
        }
    }

    /// Lets every player eat from every food it touches. Returns the
    /// sounds of the foods that are eaten up.
    pub fn feed_players(&mut self) -> (cues: Vec<SoundCue>)
        requires
            old(self).wf(),
        ensures
            final(self).wf(),
            old(self).players_fed(*final(self), cues@),
    {
        let mut eaters = gather(&self.players);
        let mut dishes = gather(&self.food);
        proof {
            lemma_player_bodies_wf(self.players@);
            lemma_food_bodies_wf(self.food@);
        }
        meal(&mut eaters, &mut dishes, FOOD_K);
        proof {
            lemma_players_with_bodies(self.players@, eaters@, self.next_id);
            lemma_foods_with_bodies(self.food@, dishes@);
        }
        scatter(&mut self.players, &eaters);
        scatter(&mut self.food, &dishes);
        let mut cues: Vec<SoundCue> = Vec::new();
        let mut i: usize = 0;
        while i < self.food.len()
            invariant
                i <= self.food@.len(),
                cues@ == heal_sounds(self.food@.take(i as int)),
            decreases self.food@.len() - i,
        {
            proof {
                assert(self.food@.take(i + 1).drop_last() =~= self.food@.take(i as int));
            }
            if self.food[i].entity.size <= 0 {
                cues.push(SoundCue { kind: SoundKind::Heal, pos: self.food[i].entity.pos });
            }
            i = i + 1;
        }
        proof {
            assert(self.food@.take(i as int) =~= self.food@);
        }
        cues
    }

    /// Takes the foods that are eaten up out of the world.
    pub fn clear_food(&mut self)
        requires
            old(self).wf(),
        ensures
            final(self).wf(),
            old(self).food_cleared(*final(self)),
    {
        let mut kept: Vec<Food> = Vec::new();
        let mut all: Vec<Food> = Vec::new();
        core::mem::swap(&mut all, &mut self.food);
        let ghost full = all@;
        for food in iter: all
            invariant
                iter.seq() == full,
                full == old(self).food@,
                foods_wf(full),
                *self == (Game { food: self.food, ..*old(self) }),
                kept@ == full.take(iter.index() as int).filter(has_substance()),
                kept@.len() <= iter.index(),
                foods_wf(kept@),
        {
            proof {
                let here = iter.index() as int;
                assert(full.take(here + 1) =~= full.take(here).push(full[here]));
                full.take(here).lemma_filter_push(full[here], has_substance());
                assert(full[here].wf());
                assert(food == full[here]);
            }
            if food.entity.size > 0 {
                kept.push(food);
            }
        }
        proof {
            assert(full.take(full.len() as int) =~= full);
        }
        self.food = kept;
    }
}

} // verus!

//! The phases of a step that deal with the players: the controllers
//! decide, the players take their steps, and at the end of the step the dead
//! are counted and go.

use vstd::prelude::*;
use crate::bot::{find_player, lemma_find_player};
use crate::entity::Entity;
use crate::food::Food;
use crate::game::{
    foods_wf, ids_below, ids_increasing, players_wf, Game, DEATH_FOOD_SIZE, MAX_FOOD,
    PLAYER_DEATH_SPEED, START,
};
use crate::player::{Action, Player};
use crate::projectile::Projectile;
use crate::scalar::{lemma_wide_product, UNIT};
use crate::sound::{SoundCue, SoundKind};

verus! {

/// The radius `size` after it has fallen for the time `dt` by `speed` a
/// second, but not below zero.
pub open spec fn worn_size(size: int, speed: int, dt: int) -> int {
    if size - speed * dt / (UNIT as int) > 0 {
        size - speed * dt / (UNIT as int)
    } else {
        0
    }
}

/// The radius `size` after it has fallen for the time `delta_time` by
/// `speed` a second, but not below zero.
pub fn wear(size: i64, speed: i64, delta_time: i64) -> (worn: i64)
    requires
        0 <= size,
        0 <= speed,
        0 <= delta_time,
    ensures
        worn == worn_size(size as int, speed as int, delta_time as int),
        0 <= worn <= size,
{
    proof {
        lemma_wide_product(speed, delta_time);
        assert(0 <= speed * delta_time) by (nonlinear_arith)
            requires
                0 <= speed,
                0 <= delta_time,
        ;
    }
    let fall: i128 = ((speed as i128) * (delta_time as i128)) / (UNIT as i128);
    if (size as i128) - fall > 0 {
        ((size as i128) - fall) as i64
    } else {
        0
    }
}

/// The player as it enters its own step: once the game has begun, its
/// radius has fallen by `PLAYER_DEATH_SPEED` a second.
pub open spec fn worn(p: Player, dt: int, decay: bool) -> Player {
    if decay {
        Player {
            entity: Entity {
                size: worn_size(p.entity.size as int, PLAYER_DEATH_SPEED as int, dt) as i64,
                ..p.entity
            },
            ..p
        }
    } else {
        p
    }
}

/// `after` is what the step of the time `dt` may make of the player
/// `before`: its radius falls if the game has begun, then it takes its own
/// step.
pub open spec fn player_stepped(before: Player, after: Player, dt: int, decay: bool) -> bool {
    exists|released: Option<Projectile>| #[trigger]
        worn(before, dt, decay).updated(after, released, dt)
}

/// The player lets its projectile go in this step: it has one and does not
/// aim.
pub open spec fn releases(p: Player) -> bool {
    p.projectile.is_some() && p.action.shoot.is_none()
}

/// The projectiles that the players let go in this step, in the order of
/// the players.
pub open spec fn shots_of(players: Seq<Player>) -> Seq<Projectile>
    decreases players.len(),
{
    if players.len() == 0 {
        Seq::empty()
    } else {
        let rest = shots_of(players.drop_last());
        if releases(players.last()) {
            rest.push(players.last().projectile.unwrap())
        } else {
            rest
        }
    }
}

/// The sounds of the projectiles that the players let go in this step, in
/// the order of the players, each where its projectile is.
pub open spec fn shoot_sounds(players: Seq<Player>) -> Seq<SoundCue>
    decreases players.len(),
{
    if players.len() == 0 {
        Seq::empty()
    } else {
        let rest = shoot_sounds(players.drop_last());
        if releases(players.last()) {
            rest.push(
                SoundCue {
                    kind: SoundKind::Shoot,
                    pos: players.last().projectile.unwrap().entity.pos,
                },
            )
        } else {
            rest
        }
    }
}

/// The test that a player has a radius.
pub open spec fn has_radius() -> spec_fn(Player) -> bool {
    |p: Player| p.entity.size > 0
}

/// The players that have a radius, in their order.
pub open spec fn surviving(players: Seq<Player>) -> Seq<Player> {
    players.filter(has_radius())
}

/// The number of opponents without radius.
pub open spec fn dead_hostile_count(players: Seq<Player>) -> nat
    decreases players.len(),
{
    if players.len() == 0 {
        0
    } else {
        dead_hostile_count(players.drop_last()) + if players.last().entity.size <= 0
            && players.last().team_id != 0 {
            1nat
        } else {
            0nat
        }
    }
}

/// How many foods the players without radius leave when `before` foods are
/// in the world already: one for each of them, in the order of the players,
/// while there are fewer than `MAX_FOOD` foods.
pub open spec fn remains_count(players: Seq<Player>, before: int) -> int
    decreases players.len(),
{
    if players.len() == 0 {
        0
    } else {
        let earlier = remains_count(players.drop_last(), before);
        if players.last().entity.size <= 0 && before + earlier < MAX_FOOD {
            earlier + 1
        } else {
            earlier
        }
    }
}

/// `food` is what the players without radius leave when `before` foods are
/// in the world already, in the order of the players: for each of them a new
/// food of the radius `DEATH_FOOD_SIZE` where the player is, while there are
/// fewer than `MAX_FOOD` foods.
pub open spec fn remains_match(players: Seq<Player>, food: Seq<Food>, before: int) -> bool
    decreases players.len(),
{
    if players.len() == 0 {
        food.len() == 0
    } else if players.last().entity.size <= 0 && before + remains_count(
        players.drop_last(),
        before,
    ) < MAX_FOOD {
        &&& food.len() > 0
        &&& food.last().is_new(players.last().entity.pos, DEATH_FOOD_SIZE as int)
        &&& remains_match(players.drop_last(), food.drop_last(), before)
    } else {
        remains_match(players.drop_last(), food, before)
    }
}

/// What the dead leave never brings the foods above `MAX_FOOD`.
pub proof fn lemma_remains_count(players: Seq<Player>, before: int)
    ensures
        0 <= remains_count(players, before),
        before + remains_count(players, before) <= MAX_FOOD || remains_count(players, before) == 0,
    decreases players.len(),
{
    if players.len() > 0 {
        lemma_remains_count(players.drop_last(), before);
    }
}

/// The sounds of the deaths of the players without radius, in the order of
/// the players, each where its player is.
pub open spec fn death_sounds(players: Seq<Player>) -> Seq<SoundCue>
    decreases players.len(),
{
    if players.len() == 0 {
        Seq::empty()
    } else {
        let rest = death_sounds(players.drop_last());
        if players.last().entity.size <= 0 {
            rest.push(SoundCue { kind: SoundKind::Death, pos: players.last().entity.pos })
        } else {
            rest
        }
    }
}

/// A count raised by `more`, but not beyond what a counter holds.
pub open spec fn raised(count: usize, more: nat) -> usize {
    if count + more <= usize::MAX {
        (count + more) as usize
    } else {
        usize::MAX
    }
}

/// An identity that stands at the place `i` is found at or before `i`.
pub proof fn lemma_player_is_found(players: Seq<Player>, i: int)
    requires
        0 <= i < players.len(),
        players[i].entity.owner_id.is_some(),
    ensures
        find_player(players, players[i].id()) <= i,
{
    lemma_find_player(players, players[i].id());
}

impl Game {
    /// Whether the game has begun: the person at the keyboard has moved far
    /// enough from the origin.
    pub open spec fn begun(self) -> bool {
        self.start > START
    }

    /// `after` is this world after every controller has been asked: each
    /// player holds what its controller decides on seeing this world, and
    /// nothing else has changed.
    pub open spec fn decided(self, after: Game) -> bool {
        &&& after == (Game { players: after.players, ..self })
        &&& after.players@.len() == self.players@.len()
        &&& forall|i: int|
            0 <= i < self.players@.len() ==> #[trigger] after.players@[i] == (Player {
                action: self.players@[i].controller.spec_act(self.players@[i].id(), self),
                ..self.players@[i]
            })
    }

    /// `after` is this world after the background has drifted for the time
    /// `dt`.
    pub open spec fn drifted(self, after: Game, dt: int) -> bool {
        &&& after == (Game { background_particles: after.background_particles, ..self })
        &&& after.background_particles@.len() == self.background_particles@.len()
        &&& forall|i: int|
            0 <= i < self.background_particles@.len() ==> #[trigger] after.background_particles@[i]
                == self.background_particles@[i].moved(dt)
    }

    /// `after` and `cues` are what the step of all players for the time `dt`
    /// may make of this world. Each player has taken its step. The
    /// projectiles let go have joined those in flight, as they were and in
    /// the order of the players, and there is one sound for each of them.
    pub open spec fn players_stepped(self, after: Game, cues: Seq<SoundCue>, dt: int) -> bool {
        &&& after == (Game { players: after.players, projectiles: after.projectiles, ..self })
        &&& after.players@.len() == self.players@.len()
        &&& forall|i: int|
            0 <= i < self.players@.len() ==> #[trigger] player_stepped(
                self.players@[i],
                after.players@[i],
                dt,
                self.begun(),
            )
        &&& after.projectiles@ == self.projectiles@ + shots_of(self.players@)
        &&& cues == shoot_sounds(self.players@)
    }

    /// `after` and `cues` are this world after the dead have been counted
    /// and have gone. The players without radius are out of the world. Each
    /// of them has left a food where it was, as long as there were fewer
    /// than `MAX_FOOD` foods; the opponents among them count as kills if the
    /// person at the keyboard was in the game when the step began, and there
    /// is one sound for each of them.
    pub open spec fn players_buried(
        self,
        after: Game,
        cues: Seq<SoundCue>,
        local_alive: bool,
    ) -> bool {
        &&& after == (Game { players: after.players, food: after.food, kills: after.kills, ..self })
        &&& after.players@ == surviving(self.players@)
        &&& after.food@.len() == self.food@.len() + remains_count(
            self.players@,
            self.food@.len() as int,
        )
        &&& after.food@.len() <= MAX_FOOD || after.food@.len() == self.food@.len()
        &&& after.food@.take(self.food@.len() as int) == self.food@
        &&& remains_match(
            self.players@,
            after.food@.skip(self.food@.len() as int),
            self.food@.len() as int,
        )
        &&& after.kills == raised(
            self.kills,
            if local_alive {
                dead_hostile_count(self.players@)
            } else {
                0nat
            },
        )
        &&& cues == death_sounds(self.players@)
    }

    /// Asks every controller what its player is to do. All of them see the
    /// world as it is before any of them has been heard.
    pub fn decide(&mut self)
        requires
            old(self).wf(),
        ensures
            final(self).wf(),
            old(self).decided(*final(self)),
    {
        let mut actions: Vec<Action> = Vec::new();
        let mut i: usize = 0;
        while i < self.players.len()
            invariant
                i <= self.players@.len(),
                *self == *old(self),
                self.wf(),
                actions@.len() == i,
                forall|j: int|
                    0 <= j < i ==> #[trigger] actions@[j] == self.players@[j].controller.spec_act(
                        self.players@[j].id(),
                        *self,
                    ),
            decreases self.players@.len() - i,
        {
            proof {
                lemma_player_is_found(self.players@, i as int);
            }
            let action = self.players[i].act(self);
            actions.push(action);
            i = i + 1;
        }
        let mut k: usize = 0;
        while k < self.players.len()
            invariant
                k <= self.players@.len(),
                self.players@.len() == old(self).players@.len(),
                actions@.len() == self.players@.len(),
                *self == (Game { players: self.players, ..*old(self) }),
                forall|j: int|
                    0 <= j < actions@.len() ==> #[trigger] actions@[j] == old(
                        self,
                    ).players@[j].controller.spec_act(old(self).players@[j].id(), *old(self)),
                forall|j: int|
                    k <= j < self.players@.len() ==> self.players@[j] == old(self).players@[j],
                forall|j: int|
                    0 <= j < k ==> #[trigger] self.players@[j] == (Player {
                        action: actions@[j],
                        ..old(self).players@[j]
                    }),
            decreases self.players@.len() - k,
        {
            let player = &mut self.players[k];
            player.action = actions[k];
            k = k + 1;
        }
        proof {
            assert forall|a: int, b: int| 0 <= a < b < self.players@.len() implies (
            #[trigger] self.players@[a]).id() < (#[trigger] self.players@[b]).id() by {
                assert(old(self).players@[a].id() < old(self).players@[b].id());
            }
        }
    }

    /// Lets the discs of the background drift on.
    pub fn drift_background(&mut self, delta_time: i64)
        ensures
            old(self).drifted(*final(self), delta_time as int),
            old(self).wf() ==> final(self).wf(),
    {
        let mut i: usize = 0;
        while i < self.background_particles.len()
            invariant
                i <= self.background_particles@.len(),
                self.background_particles@.len() == old(self).background_particles@.len(),
                *self == (Game { background_particles: self.background_particles, ..*old(self) }),
                forall|j: int|
                    i <= j < self.background_particles@.len() ==> self.background_particles@[j]
                        == old(self).background_particles@[j],
                forall|j: int|
                    0 <= j < i ==> #[trigger] self.background_particles@[j] == old(
                        self,
                    ).background_particles@[j].moved(delta_time as int),
            decreases self.background_particles@.len() - i,
        {
            let body = &mut self.background_particles[i];
            body.update(delta_time);
            i = i + 1;
        }
    }

    /// The step of the player `i`: its radius falls if the game has begun,
    /// it takes its own step, and the projectile it lets go joins the
    /// projectiles in flight, with its sound.
    pub fn step_player(&mut self, i: usize, delta_time: i64, cues: &mut Vec<SoundCue>)
        requires
            old(self).wf(),
            i < old(self).players@.len(),
            0 <= delta_time,
        ensures
            final(self).wf(),
            *final(self) == (Game {
                players: final(self).players,
                projectiles: final(self).projectiles,
                ..*old(self)
            }),
            final(self).players@.len() == old(self).players@.len(),
            forall|j: int|
                0 <= j < old(self).players@.len() && j != i ==>
                    final(self).players@[j] == old(self).players@[j],
            player_stepped(
                old(self).players@[i as int],
                final(self).players@[i as int],
                delta_time as int,
                old(self).begun(),
            ),
            if releases(old(self).players@[i as int]) {
                &&& final(self).projectiles@ == old(self).projectiles@.push(
                    old(self).players@[i as int].projectile.unwrap(),
                )
                &&& final(cues)@ == old(cues)@.push(
                    SoundCue {
                        kind: SoundKind::Shoot,
                        pos: old(self).players@[i as int].projectile.unwrap().entity.pos,
                    },
                )
            } else {
                final(self).projectiles@ == old(self).projectiles@ && final(cues)@ == old(cues)@
            },
    {
        let decay = self.start > START;
        assert(decay == self.begun());
        let ghost before = self.players@[i as int];
        let player = &mut self.players[i];
        if decay {
            player.entity.size = wear(player.entity.size, PLAYER_DEATH_SPEED, delta_time);
        }
        assert(*player == worn(before, delta_time as int, decay));
        let released = player.update(delta_time);
        let ghost after = *player;
        match released {
            Some(shot) => {
                cues.push(SoundCue { kind: SoundKind::Shoot, pos: shot.entity.pos });
                self.projectiles.push(shot);
            },
            None => {},
        }
        proof {
            assert(self.players@[i as int] == after);
            assert(worn(before, delta_time as int, decay).updated(after, released, delta_time as int));
            assert forall|a: int, b: int| 0 <= a < b < self.players@.len() implies (
            #[trigger] self.players@[a]).id() < (#[trigger] self.players@[b]).id() by {
                assert(old(self).players@[a].id() < old(self).players@[b].id());
            }
            assert forall|a: int| 0 <= a < self.players@.len() implies (
            #[trigger] self.players@[a]).id() < self.next_id by {
                assert(old(self).players@[a].id() < self.next_id);
            }
        }
    }

    /// The step of all players, one after the other. Returns the sounds of
    /// the projectiles let go.
    pub fn step_players(&mut self, delta_time: i64) -> (cues: Vec<SoundCue>)
        requires
            old(self).wf(),
            0 <= delta_time,
        ensures
            final(self).wf(),
            old(self).players_stepped(*final(self), cues@, delta_time as int),
    {
        let mut cues: Vec<SoundCue> = Vec::new();
        let n = self.players.len();
        let mut i: usize = 0;
        while i < n
            invariant
                i <= n,
                n == self.players@.len(),
                n == old(self).players@.len(),
                0 <= delta_time,
                self.wf(),
                *self == (Game {
                    players: self.players,
                    projectiles: self.projectiles,
                    ..*old(self)
                }),
                forall|j: int| i <= j < n ==> self.players@[j] == old(self).players@[j],
                forall|j: int|
                    0 <= j < i ==> #[trigger] player_stepped(
                        old(self).players@[j],
                        self.players@[j],
                        delta_time as int,
                        old(self).begun(),
                    ),
                self.projectiles@ == old(self).projectiles@ + shots_of(
                    old(self).players@.take(i as int),
                ),
                cues@ == shoot_sounds(old(self).players@.take(i as int)),
            decreases n - i,
        {
            let ghost round = *self;
            self.step_player(i, delta_time, &mut cues);
            proof {
                let here = i as int;
                assert(old(self).players@.take(here + 1).drop_last() =~= old(self).players@.take(
                    here,
                ));
                assert(round.players@[here] == old(self).players@[here]);
                assert(self.projectiles@ =~= old(self).projectiles@ + shots_of(
                    old(self).players@.take(here + 1),
                ));
            }
            i = i + 1;
        }
        proof {
            assert(old(self).players@.take(n as int) =~= old(self).players@);
        }
        cues
    }

    /// Counts the dead and takes them out of the world. Each player
    /// without radius leaves a food where it is, unless there are `MAX_FOOD`
    /// foods or more, and counts as a kill if it was an opponent and the
    /// person at the keyboard was in the game when the step began. Returns
    /// the sounds of the deaths.
    pub fn bury_players(&mut self, local_alive: bool) -> (cues: Vec<SoundCue>)
        requires
            old(self).wf(),
        ensures
            final(self).wf(),
            old(self).players_buried(*final(self), cues@, local_alive),
            forall|i: int|
                0 <= i < final(self).players@.len() ==> (
                #[trigger] final(self).players@[i]).entity.size > 0,
    {
        let mut cues: Vec<SoundCue> = Vec::new();
        let mut kept: Vec<Player> = Vec::new();
        let mut all: Vec<Player> = Vec::new();
        core::mem::swap(&mut all, &mut self.players);
        let ghost full = all@;
        for player in iter: all
            invariant
                iter.seq() == full,
                full == old(self).players@,
                players_wf(full),
                ids_increasing(full),
                ids_below(full, self.next_id),
                *self == (Game {
                    players: self.players,
                    food: self.food,
                    kills: self.kills,
                    ..*old(self)
                }),
                foods_wf(self.food@),
                kept@ == surviving(full.take(iter.index() as int)),
                players_wf(kept@),
                ids_increasing(kept@),
                ids_below(kept@, self.next_id),
                forall|k: int| 0 <= k < kept@.len() ==> (#[trigger] kept@[k]).entity.size > 0,
                forall|k: int, j: int|
                    0 <= k < kept@.len() && iter.index() <= j < full.len() ==> (
                    #[trigger] kept@[k]).id() < (#[trigger] full[j]).id(),
                self.food@.len() == old(self).food@.len() + remains_count(
                    full.take(iter.index() as int),
                    old(self).food@.len() as int,
                ),
                self.food@.len() >= old(self).food@.len(),
                self.food@.take(old(self).food@.len() as int) == old(self).food@,
                remains_match(
                    full.take(iter.index() as int),
                    self.food@.skip(old(self).food@.len() as int),
                    old(self).food@.len() as int,
                ),
                self.kills == raised(
                    old(self).kills,
                    if local_alive {
                        dead_hostile_count(full.take(iter.index() as int))
                    } else {
                        0nat
                    },
                ),
                cues@ == death_sounds(full.take(iter.index() as int)),
        {
            let ghost round = self.food@;
            proof {
                let here = iter.index() as int;
                assert(full.take(here + 1) =~= full.take(here).push(full[here]));
                assert(full.take(here + 1).drop_last() =~= full.take(here));
                full.take(here).lemma_filter_push(full[here], has_radius());
                assert(full[here].wf());
                assert(player == full[here]);
            }
            if player.entity.size > 0 {
                kept.push(player);
            } else {
                if self.food.len() < MAX_FOOD {
                    self.food.push(Food::new(player.entity.pos, DEATH_FOOD_SIZE));
                    proof {
                        let food_from = old(self).food@.len() as int;
                        assert(self.food@.take(food_from) =~= round.take(food_from));
                        assert(self.food@.skip(food_from).drop_last() =~= round.skip(food_from));
                        assert(self.food@.skip(food_from).last() == self.food@.last());
                    }
                }
                cues.push(SoundCue { kind: SoundKind::Death, pos: player.entity.pos });
                if player.team_id != 0 && local_alive && self.kills < usize::MAX {
                    self.kills = self.kills + 1;
                }
            }
        }
        proof {
            assert(full.take(full.len() as int) =~= full);
            lemma_remains_count(full, old(self).food@.len() as int);
        }
        self.players = kept;
        cues
    }
}

} // verus!

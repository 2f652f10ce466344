//! The phases of a step in which bodies meet: projectiles fly and spend
//! themselves, players push each other apart, projectiles strike players and
//! each other.

use vstd::prelude::*;
use crate::body::{bodies_of, gather, scatter, with_bodies};
use crate::entity::Entity;
use crate::game::{
    ids_below, ids_increasing, players_wf, projectiles_wf, Game, PROJECTILE_DEATH_SPEED,
    PROJECTILE_STRENGTH,
};
use crate::pairs::{
    bodies_wf, collide_all, same_bodies, spec_collide_all, spec_strike_all, spec_volley, strike_all,
    volley,
};
use crate::player::Player;
use crate::projectile::Projectile;
use crate::scalar::UNIT;
use crate::sound::{SoundCue, SoundKind};
use crate::tick::{wear, worn_size};

verus! {

/// The projectile as it enters its own step: its radius has fallen by
/// `PROJECTILE_DEATH_SPEED` a second.
pub open spec fn decayed(p: Projectile, dt: int) -> Projectile {
    Projectile {
        entity: Entity {
            size: worn_size(p.entity.size as int, PROJECTILE_DEATH_SPEED as int, dt) as i64,
            ..p.entity
        },
        ..p
    }
}

/// Whether the sound of a hit is due for the projectile: it has struck a
/// player, and its body is seen without radius for the first time, or with
/// one again.
pub open spec fn hit_sound_due(p: Projectile) -> bool {
    p.actually_hit && (p.entity.size > 0) != p.prev_alive
}

/// The projectile after it has been looked at for the sound of a hit.
pub open spec fn polled(p: Projectile) -> Projectile {
    Projectile { prev_alive: p.entity.size > 0, ..p }
}

/// The test that a projectile stays in the world: its body has a radius or
/// a spark of it is still alight.
pub open spec fn in_flight() -> spec_fn(Projectile) -> bool {
    |p: Projectile| p.entity.size > 0 || p.sparks@.len() > 0
}

/// The projectiles after each has been looked at for the sound of a hit.
pub open spec fn all_polled(projectiles: Seq<Projectile>) -> Seq<Projectile> {
    Seq::new(projectiles.len(), |i: int| polled(projectiles[i]))
}

/// The sounds of the hits that are due for the projectiles, in their order,
/// each where its projectile is.
pub open spec fn hit_sounds(projectiles: Seq<Projectile>) -> Seq<SoundCue>
    decreases projectiles.len(),
{
    if projectiles.len() == 0 {
        Seq::empty()
    } else {
        let rest = hit_sounds(projectiles.drop_last());
        if hit_sound_due(projectiles.last()) {
            rest.push(SoundCue { kind: SoundKind::Hit, pos: projectiles.last().entity.pos })
        } else {
            rest
        }
    }
}

/// The projectiles with the bodies that a volley has left them, each marked
/// as having struck a player if it touched one.
pub open spec fn after_volley(
    projectiles: Seq<Projectile>,
    bodies: Seq<Entity>,
    touched: Seq<bool>,
) -> Seq<Projectile> {
    Seq::new(
        projectiles.len(),
        |i: int|
            Projectile {
                entity: bodies[i],
                actually_hit: projectiles[i].actually_hit || touched[i],
                ..projectiles[i]
            },
    )
}

/// Players that get other bodies, with the same owners and velocities, stay
/// well-formed and keep their identities.
pub proof fn lemma_players_with_bodies(players: Seq<Player>, bodies: Seq<Entity>, next_id: usize)
    requires
        players_wf(players),
        ids_increasing(players),
        ids_below(players, next_id),
        bodies_wf(bodies),
        same_bodies(bodies_of(players), bodies),
    ensures
        players_wf(with_bodies(players, bodies)),
        ids_increasing(with_bodies(players, bodies)),
        ids_below(with_bodies(players, bodies), next_id),
        with_bodies(players, bodies).len() == players.len(),
{
    let after = with_bodies(players, bodies);
    assert forall|i: int| 0 <= i < after.len() implies (#[trigger] after[i]).wf() && after[i].id()
        == players[i].id() by {
        assert(players[i].wf());
        assert(bodies[i].owner_id == bodies_of(players)[i].owner_id);
        assert(bodies[i].wf());
    }
    assert forall|i: int, j: int| 0 <= i < j < after.len() implies (#[trigger] after[i]).id() < (
    #[trigger] after[j]).id() by {
        assert(players[i].id() < players[j].id());
        assert(after[i].id() == players[i].id());
        assert(after[j].id() == players[j].id());
    }
    assert forall|i: int| 0 <= i < after.len() implies (#[trigger] after[i]).id() < next_id by {
        assert(players[i].id() < next_id);
        assert(after[i].id() == players[i].id());
    }
}

/// The bodies of well-formed players are well-formed.
pub proof fn lemma_player_bodies_wf(players: Seq<Player>)
    requires
        players_wf(players),
    ensures
        bodies_wf(bodies_of(players)),
{
    assert forall|i: int| 0 <= i < players.len() implies (#[trigger] bodies_of(players)[i]).wf() by {
        assert(players[i].wf());
    }
}

/// The bodies of well-formed projectiles are well-formed.
pub proof fn lemma_projectile_bodies_wf(projectiles: Seq<Projectile>)
    requires
        projectiles_wf(projectiles),
    ensures
        bodies_wf(bodies_of(projectiles)),
{
    assert forall|i: int| 0 <= i < projectiles.len() implies (#[trigger] bodies_of(
        projectiles,
    )[i]).wf() by {
        assert(projectiles[i].wf());
    }
}

impl Game {
    /// `after` is what the step of all projectiles in flight for the time
    /// `dt` may make of this world: the radius of each has fallen, and each
    /// has taken its own step.
    pub open spec fn projectiles_stepped(self, after: Game, dt: int) -> bool {
        &&& after == (Game { projectiles: after.projectiles, ..self })
        &&& after.projectiles@.len() == self.projectiles@.len()
        &&& forall|i: int|
            0 <= i < self.projectiles@.len() ==> #[trigger] decayed(
                self.projectiles@[i],
                dt,
            ).stepped(after.projectiles@[i], dt)
    }

    /// `after` and `cues` are this world without the projectiles that have
    /// left it, and the sounds of the hits that were due.
    pub open spec fn projectiles_buried(self, after: Game, cues: Seq<SoundCue>) -> bool {
        &&& after == (Game { projectiles: after.projectiles, ..self })
        &&& after.projectiles@ == all_polled(self.projectiles@).filter(in_flight())
        &&& cues == hit_sounds(self.projectiles@)
    }

    /// `after` is this world after every pair of players has been pushed
    /// apart.
    pub open spec fn players_collided(self, after: Game) -> bool {
        &&& after == (Game { players: after.players, ..self })
        &&& after.players@ == with_bodies(
            self.players@,
            spec_collide_all(bodies_of(self.players@)),
        )
    }

    /// `after` is this world after each projectile in flight has struck
    /// every player but its own.
    pub open spec fn players_struck(self, after: Game) -> bool {
        let v = spec_volley(
            bodies_of(self.projectiles@),
            bodies_of(self.players@),
            PROJECTILE_STRENGTH as int,
        );
        &&& after == (Game { players: after.players, projectiles: after.projectiles, ..self })
        &&& after.players@ == with_bodies(self.players@, v.targets)
        &&& after.projectiles@ == after_volley(self.projectiles@, v.attackers, v.touched)
    }

    /// `after` is this world after every pair of projectiles in flight has
    /// met.
    pub open spec fn projectiles_struck(self, after: Game) -> bool {
        &&& after == (Game { projectiles: after.projectiles, ..self })
        &&& after.projectiles@ == with_bodies(
            self.projectiles@,
            spec_strike_all(bodies_of(self.projectiles@), UNIT as int),
        )
    }

    /// The step of all projectiles in flight: the radius of each falls, and
    /// each takes its own step.
    pub fn step_projectiles(&mut self, delta_time: i64)
        requires
            old(self).wf(),
            0 <= delta_time,
        ensures
            final(self).wf(),
            old(self).projectiles_stepped(*final(self), delta_time as int),
    {
        let mut i: usize = 0;
        while i < self.projectiles.len()
            invariant
                i <= self.projectiles@.len(),
                0 <= delta_time,
                self.projectiles@.len() == old(self).projectiles@.len(),
                *self == (Game { projectiles: self.projectiles, ..*old(self) }),
                projectiles_wf(self.projectiles@),
                forall|j: int|
                    i <= j < self.projectiles@.len() ==> self.projectiles@[j] == old(
                        self,
                    ).projectiles@[j],
                forall|j: int|
                    0 <= j < i ==> #[trigger] decayed(
                        old(self).projectiles@[j],
                        delta_time as int,
                    ).stepped(self.projectiles@[j], delta_time as int),
            decreases self.projectiles@.len() - i,
        {
            let ghost before = self.projectiles@[i as int];
            assert(before.wf());
            let projectile = &mut self.projectiles[i];
            projectile.entity.size = wear(
                projectile.entity.size,
                PROJECTILE_DEATH_SPEED,
                delta_time,
            );
            assert(*projectile == decayed(before, delta_time as int));
            projectile.update(delta_time);
            i = i + 1;
        }
    }

    /// Takes the projectiles that have left the world out of it: those
    /// whose body has no radius and whose sparks have all gone out. Returns
    /// the sounds of the hits, one for each projectile that struck a player
    /// and has now spent itself.
    pub fn bury_projectiles(&mut self) -> (cues: Vec<SoundCue>)
        requires
            old(self).wf(),
        ensures
            final(self).wf(),
            old(self).projectiles_buried(*final(self), cues@),
    {
        let mut cues: Vec<SoundCue> = Vec::new();
        let mut kept: Vec<Projectile> = Vec::new();
        let mut all: Vec<Projectile> = Vec::new();
        core::mem::swap(&mut all, &mut self.projectiles);
        let ghost full = all@;
        for projectile in iter: all
            invariant
                iter.seq() == full,
                full == old(self).projectiles@,
                projectiles_wf(full),
                *self == (Game { projectiles: self.projectiles, ..*old(self) }),
                kept@ == all_polled(full).take(iter.index() as int).filter(in_flight()),
                cues@ == hit_sounds(full.take(iter.index() as int)),
                projectiles_wf(kept@),
        {
            proof {
                let here = iter.index() as int;
                let looked = all_polled(full);
                assert(looked.take(here + 1) =~= looked.take(here).push(looked[here]));
                looked.take(here).lemma_filter_push(looked[here], in_flight());
                assert(full.take(here + 1).drop_last() =~= full.take(here));
                assert(full[here].wf());
                assert(projectile == full[here]);
            }
            let mut projectile = projectile;
            if projectile.poll_hit_sound() {
                cues.push(SoundCue { kind: SoundKind::Hit, pos: projectile.entity.pos });
            }
            if projectile.alive() {
                kept.push(projectile);
            }
        }
        proof {
            assert(all_polled(full).take(full.len() as int) =~= all_polled(full));
            assert(full.take(full.len() as int) =~= full);
        }
        self.projectiles = kept;
        cues
    }

    /// Pushes every pair of players apart once.
    pub fn collide_players(&mut self)
        requires
            old(self).wf(),
        ensures
            final(self).wf(),
            old(self).players_collided(*final(self)),
    {
        let mut bodies = gather(&self.players);
        proof {
            lemma_player_bodies_wf(self.players@);
        }
        collide_all(&mut bodies);
        proof {
            lemma_players_with_bodies(self.players@, bodies@, self.next_id);
        }
        scatter(&mut self.players, &bodies);
    }

    /// Lets each projectile in flight strike every player but its own. A
    /// player that is struck shrinks, and the projectile pays for the damage
    /// with twice as much of its own mass.
    pub fn projectiles_hit_players(&mut self)
        requires
            old(self).wf(),
        ensures
            final(self).wf(),
            old(self).players_struck(*final(self)),
    {
        let mut attackers = gather(&self.projectiles);
        let mut targets = gather(&self.players);
        proof {
            lemma_player_bodies_wf(self.players@);
            lemma_projectile_bodies_wf(self.projectiles@);
        }
        let touched = volley(&mut attackers, &mut targets, PROJECTILE_STRENGTH);
        proof {
            lemma_players_with_bodies(self.players@, targets@, self.next_id);
        }
        scatter(&mut self.players, &targets);
        let mut i: usize = 0;
        while i < self.projectiles.len()
            invariant
                i <= self.projectiles@.len(),
                self.projectiles@.len() == old(self).projectiles@.len(),
                attackers@.len() == self.projectiles@.len(),
                touched@.len() == self.projectiles@.len(),
                bodies_wf(attackers@),
                projectiles_wf(old(self).projectiles@),
                *self == (Game { projectiles: self.projectiles, players: self.players, ..*old(self) }),
                self.players@ == with_bodies(old(self).players@, targets@),
                forall|j: int|
                    i <= j < self.projectiles@.len() ==> self.projectiles@[j] == old(
                        self,
                    ).projectiles@[j],
                forall|j: int|
                    0 <= j < i ==> #[trigger] self.projectiles@[j] == (Projectile {
                        entity: attackers@[j],
                        actually_hit: old(self).projectiles@[j].actually_hit || touched@[j],
                        ..old(self).projectiles@[j]
                    }),
            decreases self.projectiles@.len() - i,
        {
            let projectile = &mut self.projectiles[i];
            projectile.entity = attackers[i];
            if touched[i] {
                projectile.actually_hit = true;
            }
            i = i + 1;
        }
        proof {
            assert(self.projectiles@ =~= after_volley(
                old(self).projectiles@,
                attackers@,
                touched@,
            ));
            assert forall|j: int| 0 <= j < self.projectiles@.len() implies (
            #[trigger] self.projectiles@[j]).wf() by {
                assert(old(self).projectiles@[j].wf());
                assert(attackers@[j].wf());
            }
        }
    }

    /// Lets every pair of projectiles in flight meet: each, in its turn,
    /// strikes all that stand before it and pays for the damage with as much
    /// of its own mass.
    pub fn projectiles_hit_projectiles(&mut self)
        requires
            old(self).wf(),
        ensures
            final(self).wf(),
            old(self).projectiles_struck(*final(self)),
    {
        let mut bodies = gather(&self.projectiles);
        proof {
            lemma_projectile_bodies_wf(self.projectiles@);
        }
        strike_all(&mut bodies, UNIT);
        scatter(&mut self.projectiles, &bodies);
        proof {
            assert forall|j: int| 0 <= j < self.projectiles@.len() implies (
            #[trigger] self.projectiles@[j]).wf() by {
                assert(old(self).projectiles@[j].wf());
                assert(bodies@[j].wf());
            }
        }
    }
}

} // verus!

//! Waves of opponents, and the whole step of the world.

use vstd::prelude::*;
use crate::game::{
    has_local_player, hostile_count, Game, CAMERA_FOV, MAX_FOOD, START, TIME_BETWEEN_WAVES,
    WAVE_PAUSE,
};
use crate::sound::SoundCue;
use crate::space::spec_distance;
use crate::tick::raised;

verus! {

/// The wave timer before it runs: while no opponent is left it is cut down
/// to `WAVE_PAUSE`.
pub open spec fn eased_timer(timer: int, calm: bool) -> int {
    if calm && timer > WAVE_PAUSE {
        WAVE_PAUSE as int
    } else {
        timer
    }
}

/// How many opponents a wave brings: as many as its number says, but no
/// more than there are identities left.
pub open spec fn wave_size(next_wave: usize, next_id: usize) -> int {
    if next_wave <= usize::MAX - next_id {
        next_wave as int
    } else {
        usize::MAX - next_id
    }
}

/// The time played after `dt` more, held at the largest time that can be
/// counted.
pub open spec fn time_added(time: int, dt: int) -> int {
    if time + dt <= i64::MAX {
        time + dt
    } else {
        i64::MAX as int
    }
}

/// The length of the step that the world takes when asked for one of the
/// length `delta_time`: that length, and none for a negative one.
pub open spec fn tick_length(delta_time: int) -> int {
    if delta_time < 0 {
        0
    } else {
        delta_time
    }
}

impl Game {
    /// `after` is this world after the next wave has entered it: new
    /// opponents, as many as the wave's number says, each out of the
    /// camera's sight, with identities given out in order.
    pub open spec fn wave_entered(self, after: Game) -> bool {
        let n = wave_size(self.next_wave, self.next_id);
        &&& after.players@.len() == self.players@.len() + n
        &&& after.players@.take(self.players@.len() as int) == self.players@
        &&& after.next_id == self.next_id + n
        &&& forall|k: int|
            self.players@.len() <= k < after.players@.len() ==> {
                let p = #[trigger] after.players@[k];
                &&& Game::is_new_enemy(
                    p,
                    (self.next_id + (k - self.players@.len())) as usize,
                    p.entity.pos,
                )
                &&& p.entity.pos.in_world()
                &&& spec_distance(self.camera_pos, p.entity.pos) > 2 * CAMERA_FOV
            }
    }

    /// `after` is what the wave timer may make of this world in the time
    /// `dt`. Once the person at the keyboard is out of the game, nothing
    /// happens any more. Until then, the timer is cut down to `WAVE_PAUSE`
    /// while no opponent is left, and before the game has begun nothing else
    /// happens. After that the time played runs and the timer runs; when
    /// the timer runs out it is set to `TIME_BETWEEN_WAVES`, the waves
    /// before the next one count as finished, and the next wave enters.
    pub open spec fn waves_run(self, after: Game, dt: int, local_alive: bool) -> bool {
        let timer = eased_timer(self.next_wave_timer as int, hostile_count(self.players@) == 0);
        if !local_alive {
            after == self
        } else if !self.begun() {
            after == (Game { next_wave_timer: timer as i64, ..self })
        } else {
            &&& after == (Game {
                next_wave_timer: after.next_wave_timer,
                time_played: after.time_played,
                next_wave: after.next_wave,
                waves_finished: after.waves_finished,
                players: after.players,
                next_id: after.next_id,
                ..self
            })
            &&& after.time_played == time_added(self.time_played as int, dt)
            &&& if timer - dt < 0 {
                &&& after.next_wave_timer == TIME_BETWEEN_WAVES
                &&& after.next_wave == raised(self.next_wave, 1)
                &&& after.waves_finished == if self.next_wave >= 1 {
                    self.next_wave - 1
                } else {
                    0
                }
                &&& self.wave_entered(after)
            } else {
                &&& after.next_wave_timer == timer - dt
                &&& after.next_wave == self.next_wave
                &&& after.waves_finished == self.waves_finished
                &&& after.players == self.players
                &&& after.next_id == self.next_id
            }
        }
    }

    /// `after` and `cues` are what one step of the time `dt` may make of
    /// this world. The phases follow each other in this order: the
    /// controllers decide, the background drifts, the players and then the
    /// projectiles in flight take their steps, the players push each other
    /// apart, the projectiles strike the players and then each other, food
    /// appears, spreads and is eaten, the dead players, the spent projectiles
    /// and the food eaten up go, and the waves run. The sounds are those of
    /// the projectiles let go, of the foods eaten up, of the deaths and of
    /// the hits, in this order.
    pub open spec fn ticked(self, after: Game, cues: Seq<SoundCue>, dt: int) -> bool {
        let alive = has_local_player(self.players@);
        exists|
            s1: Game,
            s2: Game,
            s3: Game,
            s4: Game,
            s5: Game,
            s6: Game,
            s7: Game,
            s8: Game,
            s9: Game,
            s10: Game,
            s11: Game,
            s12: Game,
            s13: Game,
            shots: Seq<SoundCue>,
            heals: Seq<SoundCue>,
            deaths: Seq<SoundCue>,
            hits: Seq<SoundCue>,
        |
            {
                &&& #[trigger] self.decided(s1)
                &&& #[trigger] s1.drifted(s2, dt)
                &&& #[trigger] s2.players_stepped(s3, shots, dt)
                &&& #[trigger] s3.projectiles_stepped(s4, dt)
                &&& #[trigger] s4.players_collided(s5)
                &&& #[trigger] s5.players_struck(s6)
                &&& #[trigger] s6.projectiles_struck(s7)
                &&& #[trigger] s7.food_spawned(s8, dt)
                &&& #[trigger] s8.food_stepped(s9, dt)
                &&& #[trigger] s9.players_fed(s10, heals)
                &&& #[trigger] s10.players_buried(s11, deaths, alive)
                &&& #[trigger] s11.projectiles_buried(s12, hits)
                &&& #[trigger] s12.food_cleared(s13)
                &&& #[trigger] s13.waves_run(after, dt, alive)
                &&& cues == shots + heals + deaths + hits
            }
    }

    /// Lets the next wave enter the world: as many opponents as its number
    /// says, each out of the camera's sight.
    pub fn send_wave(&mut self)
        requires
            old(self).wf(),
        ensures
            final(self).wf(),
            *final(self) == (Game {
                players: final(self).players,
                next_id: final(self).next_id,
                ..*old(self)
            }),
            old(self).wave_entered(*final(self)),
    {
        let count = self.next_wave;
        let mut sent: usize = 0;
        while sent < count
            invariant
                sent <= count,
                count == old(self).next_wave,
                self.wf(),
                *self == (Game { players: self.players, next_id: self.next_id, ..*old(self) }),
                self.players@.len() == old(self).players@.len() + wave_size(sent, old(self).next_id),
                self.next_id == old(self).next_id + wave_size(sent, old(self).next_id),
                self.players@.take(old(self).players@.len() as int) == old(self).players@,
                forall|k: int|
                    old(self).players@.len() <= k < self.players@.len() ==> {
                        let p = #[trigger] self.players@[k];
                        &&& Game::is_new_enemy(
                            p,
                            (old(self).next_id + (k - old(self).players@.len())) as usize,
                            p.entity.pos,
                        )
                        &&& p.entity.pos.in_world()
                        &&& spec_distance(old(self).camera_pos, p.entity.pos) > 2 * CAMERA_FOV
                    },
            decreases count - sent,
        {
            let ghost before = self.players@;
            self.spawn_enemy();
            proof {
                let kept = old(self).players@.len() as int;
                if self.players@.len() > before.len() {
                    assert(self.players@.drop_last() == before);
                    assert(self.players@.take(kept) =~= before.take(kept));
                    assert forall|k: int| kept <= k < self.players@.len() implies {
                        let p = #[trigger] self.players@[k];
                        &&& Game::is_new_enemy(
                            p,
                            (old(self).next_id + (k - kept)) as usize,
                            p.entity.pos,
                        )
                        &&& p.entity.pos.in_world()
                        &&& spec_distance(old(self).camera_pos, p.entity.pos) > 2 * CAMERA_FOV
                    } by {
                        if k < before.len() {
                            assert(self.players@[k] == self.players@.drop_last()[k]);
                        }
                    }
                }
            }
            sent = sent + 1;
        }
    }

    /// Runs the wave timer for the time `delta_time` and lets the next wave
    /// enter when it is due. Once the person at the keyboard is out of the
    /// game, no wave comes any more.
    pub fn run_waves(&mut self, delta_time: i64, local_alive: bool)
        requires
            old(self).wf(),
            0 <= delta_time,
        ensures
            final(self).wf(),
            old(self).waves_run(*final(self), delta_time as int, local_alive),
    {
        if !local_alive {
            return;
        }
        if self.enemies() == 0 && self.next_wave_timer > WAVE_PAUSE {
            self.next_wave_timer = WAVE_PAUSE;
        }
        if self.start > START {
            self.next_wave_timer = self.next_wave_timer - delta_time;
            if self.next_wave_timer < 0 {
                self.next_wave_timer = TIME_BETWEEN_WAVES;
                self.send_wave();
                self.waves_finished = if self.next_wave >= 1 {
                    self.next_wave - 1
                } else {
                    0
                };
                if self.next_wave < usize::MAX {
                    self.next_wave = self.next_wave + 1;
                }
            }
            self.time_played = if self.time_played <= i64::MAX - delta_time {
                self.time_played + delta_time
            } else {
                i64::MAX
            };
        }
    }

    /// One step of the world, of the length `delta_time`; a negative
    /// length counts as none. Returns the sounds to play. The timed food and
    /// the food of the dead never bring the foods above `MAX_FOOD`.
    pub fn update(&mut self, delta_time: i64) -> (cues: Vec<SoundCue>)
        requires
            old(self).wf(),
        ensures
            final(self).wf(),
            old(self).ticked(*final(self), cues@, tick_length(delta_time as int)),
            old(self).food@.len() <= MAX_FOOD ==> final(self).food@.len() <= MAX_FOOD,
    {
        let dt = if delta_time < 0 {
            0
        } else {
            delta_time
        };
        let local_alive = self.local_player_alive();
        self.decide();
        let ghost s1 = *self;
        self.drift_background(dt);
        let ghost s2 = *self;
        let mut cues = self.step_players(dt);
        let ghost s3 = *self;
        let ghost shots = cues@;
        self.step_projectiles(dt);
        let ghost s4 = *self;
        self.collide_players();
        let ghost s5 = *self;
        self.projectiles_hit_players();
        let ghost s6 = *self;
        self.projectiles_hit_projectiles();
        let ghost s7 = *self;
        self.spawn_food(dt);
        let ghost s8 = *self;
        self.step_food(dt);
        let ghost s9 = *self;
        let mut heals = self.feed_players();
        let ghost s10 = *self;
        let ghost healed = heals@;
        let mut deaths = self.bury_players(local_alive);
        let ghost s11 = *self;
        let ghost died = deaths@;
        let mut hits = self.bury_projectiles();
        let ghost s12 = *self;
        let ghost hit = hits@;
        self.clear_food();
        let ghost s13 = *self;
        self.run_waves(dt, local_alive);
        cues.append(&mut heals);
        cues.append(&mut deaths);
        cues.append(&mut hits);
        proof {
            assert(cues@ =~= shots + healed + died + hit);
            assert(old(self).decided(s1));
            assert(s1.drifted(s2, dt as int));
            assert(s2.players_stepped(s3, shots, dt as int));
            assert(s3.projectiles_stepped(s4, dt as int));
            assert(s4.players_collided(s5));
            assert(s5.players_struck(s6));
            assert(s6.projectiles_struck(s7));
            assert(s7.food_spawned(s8, dt as int));
            assert(s8.food_stepped(s9, dt as int));
            assert(s9.players_fed(s10, healed));
            assert(s10.players_buried(s11, died, local_alive));
            assert(s11.projectiles_buried(s12, hit));
            assert(s12.food_cleared(s13));
            assert(s13.waves_run(*self, dt as int, local_alive));
        }
        cues
    }
}

} // verus!

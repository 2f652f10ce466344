//! What the world shows and lets hear: the discs to draw, the text to
//! overlay, and the players whose aiming sounds.

use vstd::prelude::*;
use crate::color::Color;
use crate::entity::{Entity, ParticleInstance};
use crate::food::{parts_instances, Food};
use crate::game::{foods_wf, players_wf, Game, CAMERA_FOV, START};
use crate::player::Player;
use crate::projectile::Projectile;
use crate::scalar::{div_trunc, lemma_div_trunc_bounds, lemma_mul_bounds, UNIT};
use crate::sound::{spec_volume, volume};
use crate::space::{delta_pos, distance, offset, spec_delta_pos, spec_distance, spec_offset, Vec2};

verus! {

/// The number of marks on the line of aim.
pub const AIM_TICKS: usize = 40;

/// The text to lay over the picture.
#[derive(Clone, Copy, PartialEq, Eq, Structural, Debug)]
pub enum Hud {
    /// The person at the keyboard is out of the game: the score.
    GameOver { seconds_played: i64, waves_finished: usize, kills: usize },
    /// The game has not begun: the instructions, fading as the player
    /// moves away from the origin. `alpha` runs from `UNIT` down to 0.
    Intro { alpha: i64 },
    /// The game is on: the number of the next wave, the whole seconds
    /// until it comes, and the number of opponents.
    Active { next_wave: usize, seconds: i64, enemies: usize },
}

/// A player whose aiming sounds, and how loud.
#[derive(Clone, Copy, PartialEq, Eq, Structural, Debug)]
pub struct AimCue {
    pub id: usize,
    pub volume: i64,
}

/// The camera and the farthest distance from the origin after the camera
/// has followed the players of the side 0, in their order: it looks at the
/// last of them.
pub open spec fn followed(players: Seq<Player>, camera: Vec2, start: int) -> (Vec2, int)
    decreases players.len(),
{
    if players.len() == 0 {
        (camera, start)
    } else {
        let before = followed(players.drop_last(), camera, start);
        let last = players.last();
        if last.team_id == 0 {
            let far = spec_distance(Vec2 { x: 0, y: 0 }, last.entity.pos);
            (last.entity.pos, if far > before.1 { far } else { before.1 })
        } else {
            before
        }
    }
}

/// The discs of the bodies, in their order.
pub open spec fn bodies_instances(bodies: Seq<Entity>) -> Seq<ParticleInstance> {
    Seq::new(bodies.len(), |i: int| bodies[i].instance())
}

/// The mark number `i` on the line of aim, counted from 0: the marks run
/// from the camera toward the pointer, evenly spaced, up to twice the
/// camera's reach.
pub open spec fn aim_tick(camera: Vec2, pointer: Vec2, i: int) -> ParticleInstance {
    let line = spec_delta_pos(camera, pointer).spec_with_len(2 * CAMERA_FOV);
    ParticleInstance {
        i_pos: spec_offset(
            camera,
            div_trunc(line.x * (i + 1), AIM_TICKS as int),
            div_trunc(line.y * (i + 1), AIM_TICKS as int),
        ),
        i_size: 100_000,
        i_color: Color { r: 500_000, g: 500_000, b: UNIT, a: 400_000 },
    }
}

/// The marks on the line of aim.
pub open spec fn aim_ticks(camera: Vec2, pointer: Vec2) -> Seq<ParticleInstance> {
    Seq::new(AIM_TICKS as nat, |i: int| aim_tick(camera, pointer, i))
}

/// The discs of the foods, food by food.
pub open spec fn foods_instances(food: Seq<Food>) -> Seq<ParticleInstance>
    decreases food.len(),
{
    if food.len() == 0 {
        Seq::empty()
    } else {
        foods_instances(food.drop_last()) + parts_instances(food.last().parts@)
    }
}

/// The discs of the players, player by player.
pub open spec fn players_instances(players: Seq<Player>) -> Seq<ParticleInstance>
    decreases players.len(),
{
    if players.len() == 0 {
        Seq::empty()
    } else {
        players_instances(players.drop_last()) + players.last().instances()
    }
}

/// The discs of the projectiles, projectile by projectile.
pub open spec fn projectiles_instances(projectiles: Seq<Projectile>) -> Seq<ParticleInstance>
    decreases projectiles.len(),
{
    if projectiles.len() == 0 {
        Seq::empty()
    } else {
        projectiles_instances(projectiles.drop_last()) + projectiles.last().instances()
    }
}

/// How far the camera sees to the left and to the right on a picture of
/// the given width and height.
pub open spec fn reach_x(width: u32, height: u32) -> int {
    if height == 0 {
        i64::MAX as int
    } else {
        CAMERA_FOV * width / (height as int)
    }
}

/// `c` held between `-bound` and `bound`.
pub open spec fn clamp_abs(c: int, bound: int) -> int {
    if c > bound {
        bound
    } else if c < -bound {
        -bound
    } else {
        c
    }
}

/// Whether the player is an opponent out of the camera's sight.
pub open spec fn out_of_sight(p: Player, camera: Vec2, max_x: int) -> bool {
    let d = spec_delta_pos(camera, p.entity.pos);
    p.team_id != 0 && (d.x > max_x || d.x < -max_x || d.y > CAMERA_FOV || d.y < -CAMERA_FOV)
}

/// The mark that shows where an opponent out of sight is: a half
/// transparent disc of its colour and size at the edge of the picture, in
/// its direction.
pub open spec fn indicator(p: Player, camera: Vec2, max_x: int) -> ParticleInstance {
    let d = spec_delta_pos(camera, p.entity.pos);
    ParticleInstance {
        i_pos: spec_offset(camera, clamp_abs(d.x as int, max_x), clamp_abs(d.y as int, CAMERA_FOV as int)),
        i_size: p.entity.size,
        i_color: Color { a: 500_000, ..p.entity.color },
    }
}

/// The marks for the opponents out of sight, in the order of the players.
pub open spec fn indicators(players: Seq<Player>, camera: Vec2, max_x: int) -> Seq<
    ParticleInstance,
>
    decreases players.len(),
{
    if players.len() == 0 {
        Seq::empty()
    } else {
        let rest = indicators(players.drop_last(), camera, max_x);
        if out_of_sight(players.last(), camera, max_x) {
            rest.push(indicator(players.last(), camera, max_x))
        } else {
            rest
        }
    }
}

/// The players whose aiming sounds, in their order, each as loud as it is
/// near the camera.
pub open spec fn aim_cues(players: Seq<Player>, camera: Vec2) -> Seq<AimCue>
    decreases players.len(),
{
    if players.len() == 0 {
        Seq::empty()
    } else {
        let rest = aim_cues(players.drop_last(), camera);
        let last = players.last();
        if last.aiming && last.entity.owner_id.is_some() {
            rest.push(
                AimCue { id: last.id(), volume: spec_volume(last.entity.pos, camera) as i64 },
            )
        } else {
            rest
        }
    }
}

impl Game {
    /// Everything to draw, from the back to the front: the background, the
    /// line of aim while the person at the keyboard is in the game, the
    /// foods, the players, the projectiles in flight, and the marks for the
    /// opponents out of sight.
    pub open spec fn scene(self, width: u32, height: u32) -> Seq<ParticleInstance> {
        bodies_instances(self.background_particles@) + (if has_local(self) {
            aim_ticks(self.camera_pos, self.mouse_pos)
        } else {
            Seq::empty()
        }) + foods_instances(self.food@) + players_instances(self.players@)
            + projectiles_instances(self.projectiles@) + indicators(
            self.players@,
            self.camera_pos,
            reach_x(width, height),
        )
    }

    /// The text to lay over the picture.
    pub open spec fn spec_hud(self) -> Hud {
        if !has_local(self) {
            Hud::GameOver {
                seconds_played: (self.time_played / UNIT) as i64,
                waves_finished: self.waves_finished,
                kills: self.kills,
            }
        } else if self.start < START {
            Hud::Intro { alpha: ((START - self.start) * UNIT / (START as int)) as i64 }
        } else {
            Hud::Active {
                next_wave: self.next_wave,
                seconds: (self.next_wave_timer / UNIT) as i64,
                enemies: crate::game::hostile_count(self.players@) as usize,
            }
        }
    }

    /// Lets the camera follow the person at the keyboard, and notes how far
    /// from the origin that player has come. Returns whether the person at
    /// the keyboard is in the game.
    pub fn focus(&mut self) -> (local_alive: bool)
        requires
            0 <= old(self).start,
        ensures
            *final(self) == (Game {
                camera_pos: followed(
                    old(self).players@,
                    old(self).camera_pos,
                    old(self).start as int,
                ).0,
                start: followed(old(self).players@, old(self).camera_pos, old(self).start as int).1
                    as i64,
                ..*old(self)
            }),
            final(self).start >= old(self).start,
            local_alive == has_local(*old(self)),
            old(self).wf() ==> final(self).wf(),
    {
        let mut local_alive = false;
        let mut i: usize = 0;
        while i < self.players.len()
            invariant
                i <= self.players@.len(),
                self.start >= old(self).start >= 0,
                *self == (Game { camera_pos: self.camera_pos, start: self.start, ..*old(self) }),
                (self.camera_pos, self.start as int) == followed(
                    self.players@.take(i as int),
                    old(self).camera_pos,
                    old(self).start as int,
                ),
                local_alive == crate::game::has_local_player(self.players@.take(i as int)),
            decreases self.players@.len() - i,
        {
            proof {
                assert(self.players@.take(i + 1).drop_last() =~= self.players@.take(i as int));
                let now = self.players@.take(i + 1);
                let was = self.players@.take(i as int);
                if crate::game::has_local_player(was) {
                    let k = choose|k: int| 0 <= k < was.len() && (#[trigger] was[k]).team_id == 0;
                    assert(now[k].team_id == 0);
                }
                if crate::game::has_local_player(now) && self.players@[i as int].team_id != 0 {
                    let k = choose|k: int| 0 <= k < now.len() && (#[trigger] now[k]).team_id == 0;
                    assert(was[k].team_id == 0);
                }
                if self.players@[i as int].team_id == 0 {
                    assert(now[i as int].team_id == 0);
                }
            }
            if self.players[i].team_id == 0 {
                local_alive = true;
                let pos = self.players[i].entity.pos;
                self.camera_pos = pos;
                let far = distance(Vec2 { x: 0, y: 0 }, pos);
                if far > self.start {
                    self.start = far;
                }
            }
            i = i + 1;
        }
        proof {
            assert(self.players@.take(i as int) =~= self.players@);
        }
        local_alive
    }

    /// Appends the marks on the line of aim.
    fn draw_aim(&self, particles: &mut Vec<ParticleInstance>)
        ensures
            final(particles)@ == old(particles)@ + aim_ticks(self.camera_pos, self.mouse_pos),
    {
        let line = delta_pos(self.camera_pos, self.mouse_pos).with_len(2 * CAMERA_FOV);
        let mut i: usize = 0;
        while i < AIM_TICKS
            invariant
                i <= AIM_TICKS,
                line == spec_delta_pos(self.camera_pos, self.mouse_pos).spec_with_len(2 * CAMERA_FOV),
                line.within(2 * CAMERA_FOV),
                particles@ == old(particles)@ + aim_ticks(self.camera_pos, self.mouse_pos).take(
                    i as int,
                ),
            decreases AIM_TICKS - i,
        {
            let step = (i + 1) as i64;
            proof {
                lemma_mul_bounds(line.x as int, 2 * CAMERA_FOV, step as int, AIM_TICKS as int);
                lemma_mul_bounds(line.y as int, 2 * CAMERA_FOV, step as int, AIM_TICKS as int);
                lemma_div_trunc_bounds(line.x * step, AIM_TICKS as int);
                lemma_div_trunc_bounds(line.y * step, AIM_TICKS as int);
            }
            let d = Vec2 { x: line.x * step / (AIM_TICKS as i64), y: line.y * step / (AIM_TICKS as i64) };
            particles.push(
                ParticleInstance {
                    i_pos: offset(self.camera_pos, d),
                    i_color: Color::rgba(500_000, 500_000, UNIT, 400_000),
                    i_size: 100_000,
                },
            );
            proof {
                let ticks = aim_ticks(self.camera_pos, self.mouse_pos);
                assert(ticks.take(i + 1) =~= ticks.take(i as int).push(ticks[i as int]));
            }
            i = i + 1;
        }
        proof {
            let ticks = aim_ticks(self.camera_pos, self.mouse_pos);
            assert(ticks.take(AIM_TICKS as int) =~= ticks);
        }
    }

    /// Appends the marks for the opponents out of sight.
    fn draw_indicators(&self, particles: &mut Vec<ParticleInstance>, width: u32, height: u32)
        ensures
            final(particles)@ == old(particles)@ + indicators(
                self.players@,
                self.camera_pos,
                reach_x(width, height),
            ),
    {
        let max_y = CAMERA_FOV;
        let max_x = if height == 0 {
            i64::MAX
        } else {
            proof {
                lemma_mul_bounds(CAMERA_FOV as int, CAMERA_FOV as int, width as int, 0xffff_ffff);
                assert(0 <= CAMERA_FOV * width) by (nonlinear_arith)
                    requires
                        width >= 0,
                        CAMERA_FOV == 15_000_000,
                ;
                lemma_div_trunc_bounds(CAMERA_FOV * width, height as int);
            }
            CAMERA_FOV * (width as i64) / (height as i64)
        };
        let mut i: usize = 0;
        while i < self.players.len()
            invariant
                i <= self.players@.len(),
                max_x == reach_x(width, height),
                max_x >= 0,
                max_y == CAMERA_FOV,
                particles@ == old(particles)@ + indicators(
                    self.players@.take(i as int),
                    self.camera_pos,
                    max_x as int,
                ),
            decreases self.players@.len() - i,
        {
            proof {
                assert(self.players@.take(i + 1).drop_last() =~= self.players@.take(i as int));
            }
            let player = &self.players[i];
            if player.team_id != 0 {
                let d = delta_pos(self.camera_pos, player.entity.pos);
                if d.x > max_x || d.x < -max_x || d.y > max_y || d.y < -max_y {
                    let x = if d.x > max_x {
                        max_x
                    } else if d.x < -max_x {
                        -max_x
                    } else {
                        d.x
                    };
                    let y = if d.y > max_y {
                        max_y
                    } else if d.y < -max_y {
                        -max_y
                    } else {
                        d.y
                    };
                    let mut color = player.entity.color;
                    color.a = 500_000;
                    particles.push(
                        ParticleInstance {
                            i_pos: offset(self.camera_pos, Vec2 { x, y }),
                            i_color: color,
                            i_size: player.entity.size,
                        },
                    );
                }
            }
            proof {
                assert(particles@ =~= old(particles)@ + indicators(
                    self.players@.take(i + 1),
                    self.camera_pos,
                    max_x as int,
                ));
            }
            i = i + 1;
        }
        proof {
            assert(self.players@.take(i as int) =~= self.players@);
        }
    }

    /// Lets the camera follow the person at the keyboard and returns
    /// everything to draw on a picture of the given width and height, from
    /// the back to the front.
    pub fn draw(&mut self, width: u32, height: u32) -> (particles: Vec<ParticleInstance>)
        requires
            old(self).wf(),
        ensures
            final(self).wf(),
            *final(self) == (Game {
                camera_pos: followed(
                    old(self).players@,
                    old(self).camera_pos,
                    old(self).start as int,
                ).0,
                start: followed(old(self).players@, old(self).camera_pos, old(self).start as int).1
                    as i64,
                ..*old(self)
            }),
            particles@ == final(self).scene(width, height),
    {
        let local_alive = self.focus();
        let mut particles: Vec<ParticleInstance> = Vec::new();
        let mut i: usize = 0;
        while i < self.background_particles.len()
            invariant
                i <= self.background_particles@.len(),
                particles@ == bodies_instances(self.background_particles@).take(i as int),
            decreases self.background_particles@.len() - i,
        {
            self.background_particles[i].draw(&mut particles);
            proof {
                let all = bodies_instances(self.background_particles@);
                assert(all.take(i + 1) =~= all.take(i as int).push(all[i as int]));
            }
            i = i + 1;
        }
        proof {
            let all = bodies_instances(self.background_particles@);
            assert(all.take(i as int) =~= all);
        }
        if local_alive {
            self.draw_aim(&mut particles);
        }
        let ghost back = particles@;
        let mut f: usize = 0;
        while f < self.food.len()
            invariant
                f <= self.food@.len(),
                foods_wf(self.food@),
                particles@ == back + foods_instances(self.food@.take(f as int)),
            decreases self.food@.len() - f,
        {
            proof {
                assert(self.food@.take(f + 1).drop_last() =~= self.food@.take(f as int));
                assert(self.food@[f as int].wf());
            }
            self.food[f].draw(&mut particles);
            proof {
                assert(particles@ =~= back + foods_instances(self.food@.take(f + 1)));
            }
            f = f + 1;
        }
        proof {
            assert(self.food@.take(f as int) =~= self.food@);
        }
        let ghost fed = particles@;
        let mut p: usize = 0;
        while p < self.players.len()
            invariant
                p <= self.players@.len(),
                players_wf(self.players@),
                particles@ == fed + players_instances(self.players@.take(p as int)),
            decreases self.players@.len() - p,
        {
            proof {
                assert(self.players@.take(p + 1).drop_last() =~= self.players@.take(p as int));
                assert(self.players@[p as int].wf());
            }
            self.players[p].draw(&mut particles);
            proof {
                assert(particles@ =~= fed + players_instances(self.players@.take(p + 1)));
            }
            p = p + 1;
        }
        proof {
            assert(self.players@.take(p as int) =~= self.players@);
        }
        let ghost manned = particles@;
        let mut q: usize = 0;
        while q < self.projectiles.len()
            invariant
                q <= self.projectiles@.len(),
                particles@ == manned + projectiles_instances(self.projectiles@.take(q as int)),
            decreases self.projectiles@.len() - q,
        {
            proof {
                assert(self.projectiles@.take(q + 1).drop_last() =~= self.projectiles@.take(
                    q as int,
                ));
            }
            self.projectiles[q].draw(&mut particles);
            proof {
                assert(particles@ =~= manned + projectiles_instances(
                    self.projectiles@.take(q + 1),
                ));
            }
            q = q + 1;
        }
        proof {
            assert(self.projectiles@.take(q as int) =~= self.projectiles@);
        }
        self.draw_indicators(&mut particles, width, height);
        proof {
            assert(particles@ =~= self.scene(width, height));
        }
        particles
    }

    /// The text to lay over the picture: the score once the person at the
    /// keyboard is out of the game, the instructions before the game has
    /// begun, and else the state of the waves.
    pub fn hud(&self) -> (hud: Hud)
        requires
            self.wf(),
        ensures
            hud == self.spec_hud(),
    {
        if !self.local_player_alive() {
            Hud::GameOver {
                seconds_played: self.time_played / UNIT,
                waves_finished: self.waves_finished,
                kills: self.kills,
            }
        } else if self.start < START {
            Hud::Intro { alpha: (START - self.start) * UNIT / START }
        } else {
            Hud::Active {
                next_wave: self.next_wave,
                seconds: self.next_wave_timer / UNIT,
                enemies: self.enemies(),
            }
        }
    }

    /// The players whose aiming sounds, each with the loudness that its
    /// distance from the camera leaves.
    pub fn aiming_players(&self) -> (cues: Vec<AimCue>)
        ensures
            cues@ == aim_cues(self.players@, self.camera_pos),
    {
        let mut cues: Vec<AimCue> = Vec::new();
        let mut i: usize = 0;
        while i < self.players.len()
            invariant
                i <= self.players@.len(),
                cues@ == aim_cues(self.players@.take(i as int), self.camera_pos),
            decreases self.players@.len() - i,
        {
            proof {
                assert(self.players@.take(i + 1).drop_last() =~= self.players@.take(i as int));
            }
            let player = &self.players[i];
            if player.aiming {
                match player.entity.owner_id {
                    Some(id) => {
                        cues.push(AimCue { id, volume: volume(player.entity.pos, self.camera_pos) });
                    },
                    None => {},
                }
            }
            i = i + 1;
        }
        proof {
            assert(self.players@.take(i as int) =~= self.players@);
        }
        cues
    }
}

/// Whether the person at the keyboard is in the game.
pub open spec fn has_local(game: Game) -> bool {
    crate::game::has_local_player(game.players@)
}

} // verus!

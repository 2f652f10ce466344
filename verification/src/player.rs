//! Players: a body steered by a controller, with at most one projectile in
//! the making.

use vstd::prelude::*;
use crate::bot::BotController;
use crate::color::{mix, spec_mix, Color};
use crate::entity::{grown_size, lemma_shrinking, Entity, ParticleInstance, SIZE_MAX};
use crate::game::Game;
use crate::keyboard::KeyboardController;
use crate::projectile::Projectile;
use crate::scalar::{
    abs_int, div_trunc, lemma_div_trunc_bounds, lemma_mul_bounds, lemma_ratio_bounds,
    lemma_wide_product, UNIT,
};
use crate::space::{
    delta_pos, lemma_coords_below_len, lemma_len_below, lemma_scaled_coord_bounds, offset,
    spec_advance, spec_delta_pos, spec_offset, spec_steer, steer, Vec2, COORD_LIMIT,
};

verus! {

/// The radius of a new player.
pub const INITIAL_SIZE: i64 = 1_000_000;

/// The speed of a player that does not aim.
pub const MAX_SPEED: i64 = 8_000_000;

/// The speed of a player that aims.
pub const MAX_AIMING_SPEED: i64 = 4_000_000;

/// By how much a player's speed can change in a second.
pub const ACCELERATION: i64 = 15_000_000;

/// The speed of a projectile.
pub const PROJECTILE_SPEED: i64 = 25_000_000;

/// The mass that a projectile gains in a second of aiming.
pub const PROJECTILE_MASS_GAIN_SPEED: i64 = 300_000;

/// The mass that a player loses in a second of aiming.
pub const PROJECTILE_COST_SPEED: i64 = 100_000;

/// The period of the highlight that pulses on a player.
pub const PULSE_PERIOD: i64 = 1_256_637;

/// What a controller decides for one step: where to go, and where to aim if
/// at all.
#[derive(Clone, Copy, PartialEq, Eq, Structural, Debug)]
pub struct Action {
    /// The wanted direction; its length, up to `UNIT`, is the wanted share
    /// of the full speed.
    pub target_vel: Vec2,
    /// The point to aim at, if the player shoots.
    pub shoot: Option<Vec2>,
}

/// What decides for a player.
#[derive(Clone, Copy, PartialEq, Eq, Structural, Debug)]
pub enum Controller {
    /// The person at the keyboard.
    Keyboard(KeyboardController),
    /// The built-in opponent.
    Bot(BotController),
    /// Nobody: the player stays put and never shoots.
    Idle,
}

/// A player.
pub struct Player {
    pub entity: Entity,
    /// The radius one step ago.
    pub prev_size: i64,
    /// The side: 0 for the person at the keyboard, another number for
    /// opponents.
    pub team_id: usize,
    pub controller: Controller,
    /// The projectile that the player is charging, if any.
    pub projectile: Option<Projectile>,
    /// What the controller last decided.
    pub action: Action,
    /// The phase of the pulsing highlight, below `PULSE_PERIOD`.
    pub time: i64,
    /// Whether the player aimed in the last step.
    pub aiming: bool,
}

/// The velocity that an action asks for: the wanted direction, no longer
/// than `UNIT`, scaled to the full speed, and shortened to the aiming speed
/// while the player aims.
pub open spec fn spec_desired_velocity(action: Action) -> Vec2 {
    let full = action.target_vel.spec_clamp(UNIT as int).spec_scale(MAX_SPEED as int);
    if action.shoot.is_some() {
        full.spec_clamp(MAX_AIMING_SPEED as int)
    } else {
        full
    }
}

/// The body of the projectile `charge` after the shooter, whose body is
/// `shooter`, has aimed it at `target` for the time `dt`: it sits on the
/// shooter's rim toward the target, flies toward it with full speed, and has
/// grown.
pub open spec fn aimed(charge: Entity, shooter: Entity, target: Vec2, dt: int) -> Entity {
    let d = spec_delta_pos(shooter.pos, target);
    let arm = d.spec_clamp(shooter.size as int);
    Entity {
        pos: spec_offset(shooter.pos, arm.x as int, arm.y as int),
        vel: d.spec_with_len(PROJECTILE_SPEED as int),
        size: grown_size(charge.size as int, PROJECTILE_MASS_GAIN_SPEED * dt) as i64,
        ..charge
    }
}

/// `p` is the projectile that a player with the body `owner` starts to
/// charge: without radius, at rest, of the owner's colour mixed with white,
/// and the owner's own.
pub open spec fn is_blank_charge(owner: Entity, p: Projectile) -> bool {
    &&& p.entity == (Entity {
        owner_id: owner.owner_id,
        color: spec_mix(owner.color, Color { r: UNIT, g: UNIT, b: UNIT, a: UNIT }),
        pos: Vec2 { x: 0, y: 0 },
        vel: Vec2 { x: 0, y: 0 },
        size: 0,
    })
    &&& p.sparks@.len() == 0
    &&& p.next_spark == 0
    &&& p.prev_alive
    &&& !p.actually_hit
}

/// `charge` is the projectile `base` after `shooter` has aimed it at
/// `target` for the time `dt`: only its body has changed.
pub open spec fn is_aimed(
    base: Projectile,
    charge: Projectile,
    shooter: Entity,
    target: Vec2,
    dt: int,
) -> bool {
    &&& charge.entity == aimed(base.entity, shooter, target, dt)
    &&& charge.sparks == base.sparks
    &&& charge.next_spark == base.next_spark
    &&& charge.prev_alive == base.prev_alive
    &&& charge.actually_hit == base.actually_hit
}

/// The size of the pulsing highlight relative to the player, for the phase
/// `time`: it swings between a half and the whole.
pub open spec fn pulse(time: int) -> int {
    let swing = abs_int(2 * time - PULSE_PERIOD) * UNIT / (PULSE_PERIOD as int);
    (swing * swing / (UNIT as int)) * swing / (UNIT as int) / 2 + UNIT / 2
}

impl Default for Action {
    /// The action of standing still without shooting.
    fn default() -> (a: Action)
        ensures
            a == (Action { target_vel: Vec2 { x: 0, y: 0 }, shoot: None }),
    {
        Action { target_vel: Vec2 { x: 0, y: 0 }, shoot: None }
    }
}

impl Action {
    /// The action of standing still without shooting.
    pub fn idle() -> (a: Action)
        ensures
            a == (Action { target_vel: Vec2 { x: 0, y: 0 }, shoot: None }),
    {
        Action { target_vel: Vec2 { x: 0, y: 0 }, shoot: None }
    }

    /// The velocity that the action asks for.
    pub fn desired_velocity(&self) -> (v: Vec2)
        ensures
            v == spec_desired_velocity(*self),
            v.within(MAX_SPEED as int),
    {
        let unit = self.target_vel.clamp(UNIT);
        proof {
            lemma_coords_below_len(self.target_vel);
            assert(unit.within(UNIT as int));
            lemma_mul_bounds(unit.x as int, UNIT as int, MAX_SPEED as int, MAX_SPEED as int);
            lemma_mul_bounds(unit.y as int, UNIT as int, MAX_SPEED as int, MAX_SPEED as int);
            lemma_div_trunc_bounds(unit.x * MAX_SPEED, UNIT as int);
            lemma_div_trunc_bounds(unit.y * MAX_SPEED, UNIT as int);
            lemma_ratio_bounds(MAX_SPEED as int, abs_int(unit.x as int), UNIT as int);
            lemma_ratio_bounds(MAX_SPEED as int, abs_int(unit.y as int), UNIT as int);
        }
        let full = unit.scale(MAX_SPEED);
        proof {
            assert(full.within(MAX_SPEED as int)) by {
                lemma_scaled_within(unit.x as int);
                lemma_scaled_within(unit.y as int);
            }
        }
        if self.shoot.is_some() {
            full.clamp(MAX_AIMING_SPEED)
        } else {
            full
        }
    }
}

/// No action asks for more than the full speed along either axis.
pub proof fn lemma_desired_velocity_bounded(action: Action)
    ensures
        spec_desired_velocity(action).within(MAX_SPEED as int),
{
    let wanted = action.target_vel;
    lemma_coords_below_len(wanted);
    if wanted.spec_len() > UNIT {
        lemma_scaled_coord_bounds(wanted.x as int, UNIT as int, wanted.spec_len());
        lemma_scaled_coord_bounds(wanted.y as int, UNIT as int, wanted.spec_len());
    }
    let unit = wanted.spec_clamp(UNIT as int);
    assert(unit.within(UNIT as int));
    lemma_scaled_within(unit.x as int);
    lemma_scaled_within(unit.y as int);
    let full = unit.spec_scale(MAX_SPEED as int);
    assert(full.within(MAX_SPEED as int));
    if action.shoot.is_some() && full.spec_len() > MAX_AIMING_SPEED {
        lemma_coords_below_len(full);
        lemma_scaled_coord_bounds(full.x as int, MAX_AIMING_SPEED as int, full.spec_len());
        lemma_scaled_coord_bounds(full.y as int, MAX_AIMING_SPEED as int, full.spec_len());
    }
}

/// A coordinate of at most `UNIT`, scaled to the full speed, is at most the
/// full speed.
proof fn lemma_scaled_within(c: int)
    requires
        -UNIT <= c <= UNIT,
    ensures
        -MAX_SPEED <= div_trunc(c * MAX_SPEED, UNIT as int) <= MAX_SPEED,
{
    if c >= 0 {
        assert((c * MAX_SPEED) / (UNIT as int) <= MAX_SPEED
            && c * MAX_SPEED >= 0) by (nonlinear_arith)
            requires
                0 <= c <= UNIT,
                UNIT == 1_000_000,
                MAX_SPEED == 8_000_000,
        ;
    } else {
        assert((-(c * MAX_SPEED)) / (UNIT as int) <= MAX_SPEED
            && -(c * MAX_SPEED) > 0) by (nonlinear_arith)
            requires
                -UNIT <= c < 0,
                UNIT == 1_000_000,
                MAX_SPEED == 8_000_000,
        ;
    }
    lemma_div_trunc_bounds(c * MAX_SPEED, UNIT as int);
}

impl Controller {
    /// What the controller decides for the player `self_id`, given the
    /// world.
    pub fn act(&self, self_id: usize, game: &Game) -> (action: Action)
        requires
            self is Bot ==> crate::bot::find_player(game.players@, self_id) < game.players@.len(),
        ensures
            action == self.spec_act(self_id, *game),
    {
        match self {
            Controller::Keyboard(keyboard) => keyboard.act(),
            Controller::Bot(bot) => bot.act(self_id, game),
            Controller::Idle => Action::idle(),
        }
    }

    /// What the controller decides for the player `self_id`, given the
    /// world.
    pub open spec fn spec_act(self, self_id: usize, game: Game) -> Action {
        match self {
            Controller::Keyboard(keyboard) => keyboard.spec_act(),
            Controller::Bot(bot) => crate::bot::spec_bot_action(
                game.players@[crate::bot::find_player(game.players@, self_id)],
                game.players@,
                game.food@,
            ),
            Controller::Idle => Action { target_vel: Vec2 { x: 0, y: 0 }, shoot: None },
        }
    }
}

impl Player {
    /// The player has an identity, its body and its projectile are
    /// well-formed, the projectile is its own, its velocity is within
    /// `COORD_LIMIT` and the phase of its highlight within the period.
    pub open spec fn wf(self) -> bool {
        &&& self.entity.wf()
        &&& self.entity.owner_id.is_some()
        &&& self.entity.vel.small()
        &&& 0 <= self.time < PULSE_PERIOD
        &&& self.projectile matches Some(p) ==> p.wf() && p.entity.owner_id == self.entity.owner_id
    }

    /// The identity of the player.
    pub open spec fn id(self) -> usize {
        self.entity.owner_id.unwrap()
    }

    /// The body after one step of steering and moving, before any cost of
    /// aiming.
    pub open spec fn steered(self, dt: int) -> Entity {
        let vel = spec_steer(
            self.entity.vel,
            spec_desired_velocity(self.action),
            div_trunc(ACCELERATION * dt, UNIT as int),
        );
        Entity { vel, pos: spec_advance(self.entity.pos, vel, dt), ..self.entity }
    }

    /// `after` and `released` are what one step of the time `dt` may make of
    /// this player. The body is steered and moved. While the last action
    /// aims, nothing is released: the player pays for the aiming with its
    /// mass and holds a projectile, which is the one it had, one step on, or
    /// else a blank one, aimed at the target. When the action does not aim,
    /// the player holds none, and the one it had is released as it is, with
    /// the position and the velocity that the last aiming gave it.
    pub open spec fn updated(self, after: Player, released: Option<Projectile>, dt: int) -> bool {
        &&& after.prev_size == self.entity.size
        &&& after.time == (self.time + dt) % (PULSE_PERIOD as int)
        &&& after.team_id == self.team_id
        &&& after.controller == self.controller
        &&& after.action == self.action
        &&& after.aiming == self.action.shoot.is_some()
        &&& match self.action.shoot {
            Some(target) => {
                &&& released.is_none()
                &&& after.entity == self.steered(dt).with_mass_added(-(PROJECTILE_COST_SPEED * dt))
                &&& after.projectile matches Some(charge)
                &&& exists|base: Projectile|
                    {
                        &&& match self.projectile {
                            Some(before) => before.stepped(base, dt),
                            None => is_blank_charge(self.entity, base),
                        }
                        &&& #[trigger] is_aimed(base, charge, self.steered(dt), target, dt)
                    }
            },
            None => {
                &&& after.projectile.is_none()
                &&& after.entity == self.steered(dt)
                &&& released == self.projectile
            },
        }
    }

    /// The three discs that show the player's body: a dark rim, the body,
    /// and the pulsing highlight.
    pub open spec fn body_instances(self) -> Seq<ParticleInstance> {
        seq![
            ParticleInstance {
                i_pos: self.entity.pos,
                i_size: self.entity.size,
                i_color: spec_mix(self.entity.color, Color { r: 0, g: 0, b: 0, a: UNIT }),
            },
            ParticleInstance {
                i_pos: self.entity.pos,
                i_size: (self.entity.size * 9 / 10) as i64,
                i_color: self.entity.color,
            },
            ParticleInstance {
                i_pos: self.entity.pos,
                i_size: ((self.entity.size * 9 / 10) * pulse(self.time as int) / (UNIT as int)) as i64,
                i_color: Color { r: UNIT, g: UNIT, b: UNIT, a: 100_000 },
            },
        ]
    }

    /// The discs that show the player: its projectile, if it charges one,
    /// then its body.
    pub open spec fn instances(self) -> Seq<ParticleInstance> {
        match self.projectile {
            Some(p) => p.instances() + self.body_instances(),
            None => self.body_instances(),
        }
    }

    /// Whether the player is well-formed.
    pub fn is_valid(&self) -> (valid: bool)
        ensures
            valid == self.wf(),
    {
        let vel = self.entity.vel;
        let slow = -COORD_LIMIT <= vel.x && vel.x <= COORD_LIMIT && -COORD_LIMIT <= vel.y && vel.y
            <= COORD_LIMIT;
        if !self.entity.is_valid() || !slow || self.time < 0 || self.time >= PULSE_PERIOD {
            return false;
        }
        match self.entity.owner_id {
            Some(id) => match &self.projectile {
                Some(p) => p.is_valid() && crate::pairs::same_owner(&p.entity, &self.entity),
                None => true,
            },
            None => false,
        }
    }

    /// A player of the initial size, at rest at `pos`, with the identity
    /// `id`.
    pub fn new(pos: Vec2, color: Color, controller: Controller, team_id: usize, id: usize) -> (p:
        Player)
        ensures
            p.wf(),
            p.entity == (Entity {
                owner_id: Some(id),
                color,
                pos,
                vel: Vec2 { x: 0, y: 0 },
                size: INITIAL_SIZE,
            }),
            p.prev_size == INITIAL_SIZE,
            p.team_id == team_id,
            p.controller == controller,
            p.projectile.is_none(),
            p.action == (Action { target_vel: Vec2 { x: 0, y: 0 }, shoot: None }),
            p.time == 0,
            !p.aiming,
    {
        Player {
            entity: Entity {
                owner_id: Some(id),
                color,
                pos,
                vel: Vec2 { x: 0, y: 0 },
                size: INITIAL_SIZE,
            },
            prev_size: INITIAL_SIZE,
            team_id,
            controller,
            projectile: None,
            action: Action::idle(),
            time: 0,
            aiming: false,
        }
    }

    /// Asks the controller what to do, given the world.
    pub fn act(&self, game: &Game) -> (action: Action)
        requires
            self.entity.owner_id.is_some(),
            self.controller is Bot ==> crate::bot::find_player(game.players@, self.id())
                < game.players@.len(),
        ensures
            action == self.controller.spec_act(self.id(), *game),
    {
        match self.entity.owner_id {
            Some(id) => self.controller.act(id, game),
            None => Action::idle(),
        }
    }

    /// Turns the velocity toward what the last action asks for and moves
    /// the body.
    fn steer_and_move(&mut self, delta_time: i64)
        requires
            old(self).entity.vel.small(),
            0 <= delta_time,
        ensures
            *final(self) == (Player { entity: old(self).steered(delta_time as int), ..*old(self) }),
            final(self).entity.vel.small(),
            final(self).entity.pos.in_world(),
    {
        let target_vel = self.action.desired_velocity();
        proof {
            lemma_wide_product(ACCELERATION, delta_time);
            lemma_len_below(
                target_vel.x - self.entity.vel.x,
                target_vel.y - self.entity.vel.y,
                COORD_LIMIT + MAX_SPEED,
            );
        }
        // A change of speed beyond what a scalar holds is beyond every difference of two
        // velocities, and so is the largest scalar.
        let change: i128 = ((ACCELERATION as i128) * (delta_time as i128)) / (UNIT as i128);
        let max_step: i64 = if change > i64::MAX as i128 {
            i64::MAX
        } else {
            change as i64
        };
        self.entity.vel = steer(self.entity.vel, target_vel, max_step);
        self.entity.update(delta_time);
    }

    /// Lets the projectile in the making, if there is one, take its step.
    fn step_projectile(&mut self, delta_time: i64)
        requires
            old(self).projectile matches Some(p) ==> p.wf(),
            0 <= delta_time,
        ensures
            final(self).entity == old(self).entity,
            final(self).prev_size == old(self).prev_size,
            final(self).team_id == old(self).team_id,
            final(self).controller == old(self).controller,
            final(self).action == old(self).action,
            final(self).time == old(self).time,
            final(self).aiming == old(self).aiming,
            match old(self).projectile {
                Some(before) => final(self).projectile matches Some(after) && before.stepped(
                    after,
                    delta_time as int,
                ) && after.wf(),
                None => final(self).projectile.is_none(),
            },
    {
        match &mut self.projectile {
            Some(p) => {
                p.update(delta_time);
            },
            None => {},
        }
    }

    /// Aims at `target`: the player holds its projectile, or a blank one
    /// if it had none, on its rim toward the target, lets it grow and pays
    /// for it.
    fn hold(&mut self, target: Vec2, delta_time: i64)
        requires
            old(self).entity.wf(),
            old(self).projectile matches Some(p) ==> p.wf(),
            0 <= delta_time,
        ensures
            final(self).entity == old(self).entity.with_mass_added(
                -(PROJECTILE_COST_SPEED * delta_time),
            ),
            final(self).entity.wf(),
            final(self).entity.size <= old(self).entity.size,
            final(self).prev_size == old(self).prev_size,
            final(self).team_id == old(self).team_id,
            final(self).controller == old(self).controller,
            final(self).action == old(self).action,
            final(self).time == old(self).time,
            final(self).aiming,
            final(self).projectile matches Some(charge)
                && charge.wf()
                && match old(self).projectile {
                Some(base) => is_aimed(base, charge, old(self).entity, target, delta_time as int),
                None => exists|base: Projectile|
                    is_blank_charge(old(self).entity, base) && #[trigger] is_aimed(
                        base,
                        charge,
                        old(self).entity,
                        target,
                        delta_time as int,
                    ),
            },
    {
        self.aiming = true;
        if self.projectile.is_none() {
            let blank = Projectile::new(self.entity.owner_id, mix(self.entity.color, Color::white()));
            proof {
                assert(is_blank_charge(self.entity, blank));
            }
            self.projectile = Some(blank);
        }
        let ghost base = self.projectile.unwrap();
        let d = delta_pos(self.entity.pos, target);
        let arm = d.clamp(self.entity.size);
        let pos = offset(self.entity.pos, arm);
        let vel = d.with_len(PROJECTILE_SPEED);
        match &mut self.projectile {
            Some(p) => {
                p.entity.pos = pos;
                p.entity.vel = vel;
                p.entity.add_mass((PROJECTILE_MASS_GAIN_SPEED as i128) * (delta_time as i128));
            },
            None => {},
        }
        proof {
            lemma_wide_product(PROJECTILE_MASS_GAIN_SPEED, delta_time);
            lemma_wide_product(PROJECTILE_COST_SPEED, delta_time);
            lemma_shrinking(self.entity.size as int, -(PROJECTILE_COST_SPEED * delta_time));
            assert(is_aimed(
                base,
                self.projectile.unwrap(),
                self.entity,
                target,
                delta_time as int,
            ));
        }
        self.entity.add_mass(-((PROJECTILE_COST_SPEED as i128) * (delta_time as i128)));
    }

    /// One step of time. The velocity turns toward what the last action
    /// asks for, by no more than the acceleration allows, and the body
    /// moves. While the action aims, the projectile in the making takes its
    /// own step, the player holds it on its rim toward the target, the
    /// projectile grows and the player pays for it with its own mass. When
    /// the action does not aim, the projectile, if there is one, is let go
    /// and returned as it is.
    pub fn update(&mut self, delta_time: i64) -> (released: Option<Projectile>)
        requires
            old(self).wf(),
            0 <= delta_time,
        ensures
            final(self).wf(),
            old(self).updated(*final(self), released, delta_time as int),
            final(self).entity.pos.in_world(),
            final(self).entity.size <= old(self).entity.size,
            final(self).entity.owner_id == old(self).entity.owner_id,
            released matches Some(shot) ==>
                shot.wf() && shot.entity.owner_id == old(self).entity.owner_id,
    {
        self.prev_size = self.entity.size;
        self.time = (((self.time as i128) + (delta_time as i128)) % (PULSE_PERIOD as i128)) as i64;
        self.steer_and_move(delta_time);
        match self.action.shoot {
            Some(target) => {
                self.step_projectile(delta_time);
                let ghost stepped = self.projectile;
                self.hold(target, delta_time);
                proof {
                    let charge = self.projectile.unwrap();
                    let shooter = old(self).steered(delta_time as int);
                    match old(self).projectile {
                        Some(before) => {
                            assert(before.stepped(stepped.unwrap(), delta_time as int));
                            assert(is_aimed(
                                stepped.unwrap(),
                                charge,
                                shooter,
                                target,
                                delta_time as int,
                            ));
                        },
                        None => {
                            let base = choose|base: Projectile|
                                is_blank_charge(shooter, base) && #[trigger] is_aimed(
                                    base,
                                    charge,
                                    shooter,
                                    target,
                                    delta_time as int,
                                );
                            assert(is_blank_charge(old(self).entity, base));
                        },
                    }
                }
                None
            },
            None => {
                self.aiming = false;
                self.projectile.take()
            },
        }
    }

    /// Appends the discs that show the player: its projectile, if it
    /// charges one, then a dark rim, the body, and the pulsing highlight.
    pub fn draw(&self, particles: &mut Vec<ParticleInstance>)
        requires
            self.wf(),
        ensures
            final(particles)@ == old(particles)@ + self.instances(),
    {
        match &self.projectile {
            Some(p) => {
                p.draw(particles);
            },
            None => {},
        }
        let ghost mid = particles@;
        let inner = self.entity.size * 9 / 10;
        let swing = Self::swing(self.time);
        let strength = (swing * swing / UNIT) * swing / UNIT / 2 + UNIT / 2;
        particles.push(
            ParticleInstance {
                i_pos: self.entity.pos,
                i_size: self.entity.size,
                i_color: mix(self.entity.color, Color::black()),
            },
        );
        particles.push(
            ParticleInstance { i_pos: self.entity.pos, i_size: inner, i_color: self.entity.color },
        );
        proof {
            lemma_mul_bounds(inner as int, SIZE_MAX as int, strength as int, UNIT as int);
        }
        particles.push(
            ParticleInstance {
                i_pos: self.entity.pos,
                i_size: inner * strength / UNIT,
                i_color: Color::rgba(UNIT, UNIT, UNIT, 100_000),
            },
        );
        proof {
            assert(particles@ =~= mid + self.body_instances());
        }
    }

    /// How far the highlight is from its lowest point, from 0 to `UNIT`,
    /// at the phase `time`.
    fn swing(time: i64) -> (r: i64)
        requires
            0 <= time < PULSE_PERIOD,
        ensures
            r == abs_int(2 * time - PULSE_PERIOD) * UNIT / (PULSE_PERIOD as int),
            0 <= r <= UNIT,
            0 <= r * r <= UNIT * UNIT,
            0 <= (r * r / (UNIT as int)) <= UNIT,
            0 <= (r * r / (UNIT as int)) * r <= UNIT * UNIT,
            UNIT / 2 <= (r * r / (UNIT as int)) * r / (UNIT as int) / 2 + UNIT / 2 <= UNIT,
    {
        let off = if 2 * time >= PULSE_PERIOD {
            2 * time - PULSE_PERIOD
        } else {
            PULSE_PERIOD - 2 * time
        };
        let r = off * UNIT / PULSE_PERIOD;
        proof {
            assert(0 <= r * r <= UNIT * UNIT) by (nonlinear_arith)
                requires
                    0 <= r <= UNIT,
            ;
            let q = r * r / (UNIT as int);
            assert(0 <= q <= UNIT);
            assert(0 <= q * r <= UNIT * UNIT) by (nonlinear_arith)
                requires
                    0 <= r <= UNIT,
                    0 <= q <= UNIT,
            ;
            assert(UNIT * UNIT == 1_000_000_000_000) by (nonlinear_arith);
        }
        r
    }
}

} // verus!

//! The world: all players, projectiles and foods, and the step that moves
//! them on.

use vstd::prelude::*;
use crate::bot::BotController;
use crate::color::Color;
use crate::entity::Entity;
use crate::food::Food;
use crate::keyboard::KeyboardController;
use crate::player::{Action, Controller, Player, INITIAL_SIZE};
use crate::projectile::Projectile;
use crate::rng::{random_between, random_position};
use crate::scalar::{lemma_sqrt_floor_is, UNIT};
use crate::space::{
    distance, lemma_wrap_coord, offset, spec_distance, spec_offset, wrap_coord, Vec2, WORLD_SIZE,
};

verus! {

/// How far the camera sees upward and downward.
pub const CAMERA_FOV: i64 = 15_000_000;

/// How far the person at the keyboard must have moved from the origin for
/// the game to begin.
pub const START: i64 = 5_000_000;

/// The number of foods above which none is added by the timer.
pub const MAX_FOOD: usize = 100;

/// How much of the mass of a food the eater gains.
pub const FOOD_K: i64 = 3_000_000;

/// The smallest radius of a food.
pub const FOOD_SIZE_MIN: i64 = 100_000;

/// The radius below which every food lies.
pub const FOOD_SIZE_MAX: i64 = 500_000;

/// The shortest time between two foods.
pub const FOOD_SPAWN_MIN: i64 = 50_000;

/// The time below which every pause between two foods lies.
pub const FOOD_SPAWN_MAX: i64 = 100_000;

/// The time between two waves of opponents.
pub const TIME_BETWEEN_WAVES: i64 = 120_000_000;

/// The longest time until the next wave while no opponent is left.
pub const WAVE_PAUSE: i64 = 10_000_000;

/// By how much the radius of a projectile in flight falls in a second.
pub const PROJECTILE_DEATH_SPEED: i64 = 100_000;

/// The share of the damage done that a projectile pays with its own mass
/// is one over this.
pub const PROJECTILE_STRENGTH: i64 = 500_000;

/// By how much the radius of a player falls in a second.
pub const PLAYER_DEATH_SPEED: i64 = 50_000;

/// The number of large faint discs that drift in the background.
pub const BACKGROUND_COUNT: usize = 10;

/// The radius of the food that a dead player leaves: eaten up, it gives the
/// mass of a new player.
pub const DEATH_FOOD_SIZE: i64 = 577_350;

/// How many random places are tried for a new opponent before it is put at
/// the far corner.
pub const SPAWN_ATTEMPTS: u32 = 64;

/// A key of the keyboard, as far as the game cares.
#[derive(Clone, Copy, PartialEq, Eq, Structural, Debug)]
pub enum Key {
    R,
    F,
    Other,
}

/// Something that the person at the keyboard did.
#[derive(Clone, Copy, PartialEq, Eq, Structural, Debug)]
pub enum Event {
    KeyDown(Key),
    MouseDown,
    Other,
}

/// What the window has to do after an event.
#[derive(Clone, Copy, PartialEq, Eq, Structural, Debug)]
pub struct Response {
    /// Start the music.
    pub start_music: bool,
    /// Switch between the window and the full screen.
    pub toggle_fullscreen: bool,
}

/// The world.
pub struct Game {
    pub players: Vec<Player>,
    pub projectiles: Vec<Projectile>,
    pub food: Vec<Food>,
    /// The time until the next food.
    pub next_food: i64,
    /// The point that the camera looks at.
    pub camera_pos: Vec2,
    pub background_particles: Vec<Entity>,
    /// Where in the world the pointer is.
    pub mouse_pos: Vec2,
    /// The time until the next wave.
    pub next_wave_timer: i64,
    /// The number of the next wave, which is the number of opponents it
    /// brings.
    pub next_wave: usize,
    pub time_played: i64,
    pub kills: usize,
    pub waves_finished: usize,
    /// The farthest that the person at the keyboard has been from the
    /// origin.
    pub start: i64,
    /// The identity that the next player gets.
    pub next_id: usize,
    /// Whether the music has been started.
    pub music_started: bool,
}

/// Every player of the sequence is well-formed.
pub open spec fn players_wf(players: Seq<Player>) -> bool {
    forall|i: int| 0 <= i < players.len() ==> (#[trigger] players[i]).wf()
}

/// The identities of the players rise along the sequence: a player that
/// came later has a higher one.
pub open spec fn ids_increasing(players: Seq<Player>) -> bool {
    forall|i: int, j: int|
        0 <= i < j < players.len() ==> (#[trigger] players[i]).id() < (#[trigger] players[j]).id()
}

/// Every identity of the sequence lies below `next_id`.
pub open spec fn ids_below(players: Seq<Player>, next_id: usize) -> bool {
    forall|i: int| 0 <= i < players.len() ==> (#[trigger] players[i]).id() < next_id
}

/// Every projectile of the sequence is well-formed.
pub open spec fn projectiles_wf(projectiles: Seq<Projectile>) -> bool {
    forall|i: int| 0 <= i < projectiles.len() ==> (#[trigger] projectiles[i]).wf()
}

/// Every food of the sequence is well-formed.
pub open spec fn foods_wf(food: Seq<Food>) -> bool {
    forall|i: int| 0 <= i < food.len() ==> (#[trigger] food[i]).wf()
}

/// One of the players is of the side 0: the person at the keyboard is in
/// the game.
pub open spec fn has_local_player(players: Seq<Player>) -> bool {
    exists|i: int| 0 <= i < players.len() && (#[trigger] players[i]).team_id == 0
}

/// The number of players that are not of the side 0.
pub open spec fn hostile_count(players: Seq<Player>) -> nat
    decreases players.len(),
{
    if players.len() == 0 {
        0
    } else {
        hostile_count(players.drop_last()) + if players.last().team_id != 0 {
            1nat
        } else {
            0nat
        }
    }
}

/// The food that a dead player leaves has the radius of a body whose mass
/// is that of a new player divided by the food factor.
pub proof fn lemma_death_food_size()
    ensures
        DEATH_FOOD_SIZE == crate::scalar::sqrt_floor(
            INITIAL_SIZE * INITIAL_SIZE * UNIT / (FOOD_K as int),
        ),
{
    assert(INITIAL_SIZE * INITIAL_SIZE * UNIT / (FOOD_K as int) == 333_333_333_333) by (nonlinear_arith)
        requires
            INITIAL_SIZE == 1_000_000,
            UNIT == 1_000_000,
            FOOD_K == 3_000_000,
    ;
    assert(577_350int * 577_350 <= 333_333_333_333 < 577_351int * 577_351) by (nonlinear_arith);
    lemma_sqrt_floor_is(333_333_333_333, 577_350);
}

/// The far corner of the world as seen from `from`: half a world away along
/// both axes. No point is farther.
pub open spec fn far_corner(from: Vec2) -> Vec2 {
    spec_offset(from, WORLD_SIZE as int, WORLD_SIZE as int)
}

/// A coordinate of the world that differs by whole worlds from one that
/// lies half a world off lies half a world off itself, one way or the other.
proof fn lemma_half_world_apart(e: int, d: int)
    requires
        (e - WORLD_SIZE) % (2 * WORLD_SIZE) == 0,
        (d - e) % (2 * WORLD_SIZE) == 0,
        -WORLD_SIZE <= d <= WORLD_SIZE,
    ensures
        d == WORLD_SIZE || d == -WORLD_SIZE,
{
    vstd::arithmetic::div_mod::lemma_fundamental_div_mod(e - WORLD_SIZE, 2 * WORLD_SIZE);
    vstd::arithmetic::div_mod::lemma_fundamental_div_mod(d - e, 2 * WORLD_SIZE);
    let k1 = (e - WORLD_SIZE) / (2 * WORLD_SIZE);
    let k2 = (d - e) / (2 * WORLD_SIZE);
    assert(e - WORLD_SIZE == 100_000_000 * k1) by (nonlinear_arith)
        requires
            e - WORLD_SIZE == (2 * WORLD_SIZE) * k1 + 0,
            WORLD_SIZE == 50_000_000,
    ;
    assert(d - e == 100_000_000 * k2) by (nonlinear_arith)
        requires
            d - e == (2 * WORLD_SIZE) * k2 + 0,
            WORLD_SIZE == 50_000_000,
    ;
    assert(d - 50_000_000 == 100_000_000 * (k1 + k2));
}

/// The far corner lies at the distance of the world's half-diagonal.
pub proof fn lemma_far_corner(from: Vec2)
    ensures
        spec_distance(from, far_corner(from)) == 70_710_678,
        far_corner(from).in_world(),
{
    let corner = far_corner(from);
    lemma_wrap_coord(from.x + WORLD_SIZE);
    lemma_wrap_coord(from.y + WORLD_SIZE);
    let ex = corner.x - from.x;
    let ey = corner.y - from.y;
    lemma_wrap_coord(ex);
    lemma_wrap_coord(ey);
    let dx = wrap_coord(ex);
    let dy = wrap_coord(ey);
    lemma_half_world_apart(ex, dx);
    lemma_half_world_apart(ey, dy);
    assert(dx * dx == 2_500_000_000_000_000
        && dy * dy == 2_500_000_000_000_000) by (nonlinear_arith)
        requires
            dx == 50_000_000 || dx == -50_000_000,
            dy == 50_000_000 || dy == -50_000_000,
    ;
    assert(70_710_678int * 70_710_678int <= 5_000_000_000_000_000 < 70_710_679int * 70_710_679int)
        by (nonlinear_arith);
    lemma_sqrt_floor_is(5_000_000_000_000_000, 70_710_678);
}

impl Game {
    /// The players, projectiles and foods are well-formed, the identities of
    /// the players rise along their list and lie below the next identity,
    /// and the timers lie in their ranges.
    pub open spec fn wf(self) -> bool {
        &&& players_wf(self.players@)
        &&& ids_increasing(self.players@)
        &&& ids_below(self.players@, self.next_id)
        &&& projectiles_wf(self.projectiles@)
        &&& foods_wf(self.food@)
        &&& 0 <= self.next_food <= FOOD_SPAWN_MAX
        &&& 0 <= self.next_wave_timer <= TIME_BETWEEN_WAVES
        &&& 0 <= self.time_played
        &&& 0 <= self.start
    }

    /// Whether the world is well-formed.
    pub fn is_valid(&self) -> (valid: bool)
        ensures
            valid == self.wf(),
    {
        let timers = 0 <= self.next_food && self.next_food <= FOOD_SPAWN_MAX && 0
            <= self.next_wave_timer && self.next_wave_timer <= TIME_BETWEEN_WAVES && 0
            <= self.time_played && 0 <= self.start;
        if !timers {
            return false;
        }
        let mut i: usize = 0;
        let mut last: Option<usize> = None;
        while i < self.players.len()
            invariant
                i <= self.players@.len(),
                players_wf(self.players@.take(i as int)),
                ids_increasing(self.players@.take(i as int)),
                ids_below(self.players@.take(i as int), self.next_id),
                match last {
                    Some(id) => i > 0 && id == self.players@[i - 1].id(),
                    None => i == 0,
                },
            decreases self.players@.len() - i,
        {
            let player = &self.players[i];
            let ghost before = self.players@.take(i as int);
            let ghost now = self.players@.take(i + 1);
            proof {
                assert(now.drop_last() =~= before);
                assert(now[i as int] == self.players@[i as int]);
            }
            if !player.is_valid() {
                proof {
                    if self.wf() {
                        assert(self.players@[i as int].wf());
                    }
                }
                return false;
            }
            let id = match player.entity.owner_id {
                Some(id) => id,
                None => 0,
            };
            let rising = match last {
                Some(earlier) => earlier < id,
                None => true,
            };
            if !rising || id >= self.next_id {
                proof {
                    if self.wf() {
                        assert(self.players@[i as int].id() < self.next_id);
                        if i > 0 {
                            assert(self.players@[i - 1].id() < self.players@[i as int].id());
                        }
                    }
                }
                return false;
            }
            proof {
                assert forall|a: int, b: int| 0 <= a < b < now.len() implies (#[trigger] now[a]).id()
                    < (#[trigger] now[b]).id() by {
                    if b < i {
                        assert(before[a].id() < before[b].id());
                    } else if a < i - 1 {
                        assert(before[a].id() < before[i - 1].id());
                    } else if a == i - 1 {
                        assert(now[a] == self.players@[i - 1]);
                    }
                }
                assert forall|a: int| 0 <= a < now.len() implies (#[trigger] now[a]).wf()
                    && now[a].id()
                    < self.next_id by {
                    if a < i {
                        assert(before[a].wf());
                        assert(before[a].id() < self.next_id);
                    }
                }
            }
            last = Some(id);
            i = i + 1;
        }
        proof {
            assert(self.players@.take(i as int) =~= self.players@);
        }
        let mut j: usize = 0;
        while j < self.projectiles.len()
            invariant
                j <= self.projectiles@.len(),
                forall|k: int| 0 <= k < j ==> (#[trigger] self.projectiles@[k]).wf(),
            decreases self.projectiles@.len() - j,
        {
            if !self.projectiles[j].is_valid() {
                return false;
            }
            j = j + 1;
        }
        let mut f: usize = 0;
        while f < self.food.len()
            invariant
                f <= self.food@.len(),
                forall|k: int| 0 <= k < f ==> (#[trigger] self.food@[k]).wf(),
            decreases self.food@.len() - f,
        {
            if !self.food[f].is_valid() {
                return false;
            }
            f = f + 1;
        }
        true
    }

    /// Whether the person at the keyboard is in the game.
    pub fn local_player_alive(&self) -> (alive: bool)
        ensures
            alive == has_local_player(self.players@),
    {
        let mut i: usize = 0;
        while i < self.players.len()
            invariant
                i <= self.players@.len(),
                forall|j: int| 0 <= j < i ==> (#[trigger] self.players@[j]).team_id != 0,
            decreases self.players@.len() - i,
        {
            if self.players[i].team_id == 0 {
                return true;
            }
            i = i + 1;
        }
        false
    }

    /// The number of opponents in the game.
    pub fn enemies(&self) -> (count: usize)
        ensures
            count == hostile_count(self.players@),
    {
        let mut count: usize = 0;
        let mut i: usize = 0;
        while i < self.players.len()
            invariant
                i <= self.players@.len(),
                count <= i,
                count == hostile_count(self.players@.take(i as int)),
            decreases self.players@.len() - i,
        {
            proof {
                assert(self.players@.take(i + 1).drop_last() =~= self.players@.take(i as int));
            }
            if self.players[i].team_id != 0 {
                count = count + 1;
            }
            i = i + 1;
        }
        proof {
            assert(self.players@.take(i as int) =~= self.players@);
        }
        count
    }

    /// Takes the next identity from the counter. No identity is given out
    /// twice; when the counter is exhausted, none is given out any more.
    pub fn fresh_id(&mut self) -> (id: Option<usize>)
        ensures
            match id {
                Some(i) => i == old(self).next_id && i < usize::MAX && *final(self) == (Game {
                    next_id: (i + 1) as usize,
                    ..*old(self)
                }),
                None => old(self).next_id == usize::MAX && *final(self) == *old(self),
            },
    {
        if self.next_id < usize::MAX {
            let id = self.next_id;
            self.next_id = id + 1;
            Some(id)
        } else {
            None
        }
    }

    /// The player that the person at the keyboard starts with.
    pub open spec fn is_local_player(p: Player, id: usize) -> bool {
        &&& p.entity == (Entity {
            owner_id: Some(id),
            color: Color { r: 500_000, g: 500_000, b: UNIT, a: UNIT },
            pos: Vec2 { x: 0, y: 0 },
            vel: Vec2 { x: 0, y: 0 },
            size: INITIAL_SIZE,
        })
        &&& p.prev_size == INITIAL_SIZE
        &&& p.team_id == 0
        &&& p.controller is Keyboard
        &&& p.projectile.is_none()
        &&& p.action == (Action { target_vel: Vec2 { x: 0, y: 0 }, shoot: None })
        &&& p.time == 0
        &&& !p.aiming
    }

    /// An opponent as it enters the game at `pos`.
    pub open spec fn is_new_enemy(p: Player, id: usize, pos: Vec2) -> bool {
        &&& p.entity == (Entity {
            owner_id: Some(id),
            color: Color { r: UNIT, g: 0, b: 0, a: UNIT },
            pos,
            vel: Vec2 { x: 0, y: 0 },
            size: INITIAL_SIZE,
        })
        &&& p.prev_size == INITIAL_SIZE
        &&& p.team_id == 1
        &&& p.controller is Bot
        &&& p.projectile.is_none()
        &&& p.action == (Action { target_vel: Vec2 { x: 0, y: 0 }, shoot: None })
        &&& p.time == 0
        &&& !p.aiming
    }

    /// `after` is this world with the game started anew: one player for the
    /// person at the keyboard, with the next identity, and nothing else in
    /// the world; the timers and the score are as at the start. When the
    /// identities are exhausted, there is no player. The background, the
    /// camera, the pointer and the music stay as they are.
    pub open spec fn was_reset(self, after: Game) -> bool {
        &&& after.projectiles@.len() == 0
        &&& after.food@.len() == 0
        &&& after.next_food == 0
        &&& after.next_wave_timer == WAVE_PAUSE
        &&& after.next_wave == 1
        &&& after.start == 0
        &&& after.kills == 0
        &&& after.waves_finished == 0
        &&& after.time_played == 0
        &&& after.camera_pos == self.camera_pos
        &&& after.mouse_pos == self.mouse_pos
        &&& after.background_particles == self.background_particles
        &&& after.music_started == self.music_started
        &&& if self.next_id < usize::MAX {
            &&& after.next_id == self.next_id + 1
            &&& after.players@.len() == 1
            &&& Self::is_local_player(after.players@[0], self.next_id)
        } else {
            &&& after.next_id == usize::MAX
            &&& after.players@.len() == 0
        }
    }

    /// Starts the game anew: one player for the person at the keyboard, at
    /// the origin, no opponent, no projectile, no food. The background, the
    /// camera and the counter of identities stay as they are.
    pub fn reset(&mut self)
        ensures
            final(self).wf(),
            old(self).was_reset(*final(self)),
    {
        let mut players: Vec<Player> = Vec::new();
        match self.fresh_id() {
            Some(id) => {
                players.push(
                    Player::new(
                        Vec2 { x: 0, y: 0 },
                        Color::rgb(500_000, 500_000, UNIT),
                        Controller::Keyboard(
                            KeyboardController::new(
                                false,
                                false,
                                false,
                                false,
                                false,
                                Vec2 { x: 0, y: 0 },
                            ),
                        ),
                        0,
                        id,
                    ),
                );
            },
            None => {},
        }
        self.players = players;
        self.food = Vec::new();
        self.next_food = 0;
        self.projectiles = Vec::new();
        self.next_wave_timer = WAVE_PAUSE;
        self.next_wave = 1;
        self.start = 0;
        self.kills = 0;
        self.waves_finished = 0;
        self.time_played = 0;
    }

    /// `body` is a disc of the background: faint, neutral, in the world,
    /// slow, and between one and two reaches of the camera large.
    pub open spec fn is_backdrop(body: Entity) -> bool {
        &&& body.owner_id.is_none()
        &&& 0 <= body.color.r < UNIT
        &&& 0 <= body.color.g < UNIT
        &&& 0 <= body.color.b < UNIT
        &&& body.color.a == 20_000
        &&& -WORLD_SIZE <= body.pos.x < WORLD_SIZE
        &&& -WORLD_SIZE <= body.pos.y < WORLD_SIZE
        &&& -UNIT <= body.vel.x < UNIT
        &&& -UNIT <= body.vel.y < UNIT
        &&& CAMERA_FOV <= body.size < 2 * CAMERA_FOV
    }

    /// A new world: a random background and the game at its start. The
    /// first identity given out is 1.
    pub fn new() -> (game: Game)
        ensures
            game.wf(),
            game.players@.len() == 1,
            Self::is_local_player(game.players@[0], 1),
            game.next_id == 2,
            game.projectiles@.len() == 0,
            game.food@.len() == 0,
            game.next_food == 0,
            game.next_wave_timer == WAVE_PAUSE,
            game.next_wave == 1,
            game.start == 0,
            game.kills == 0,
            game.waves_finished == 0,
            game.time_played == 0,
            game.camera_pos == (Vec2 { x: 0, y: 0 }),
            game.mouse_pos == (Vec2 { x: 0, y: 0 }),
            !game.music_started,
            game.background_particles@.len() == BACKGROUND_COUNT,
            forall|i: int|
                0 <= i < game.background_particles@.len() ==> Self::is_backdrop(
                    #[trigger] game.background_particles@[i],
                ),
    {
        let mut background: Vec<Entity> = Vec::new();
        let mut i: usize = 0;
        while i < BACKGROUND_COUNT
            invariant
                i <= BACKGROUND_COUNT,
                background@.len() == i,
                forall|j: int| 0 <= j < i ==> Self::is_backdrop(#[trigger] background@[j]),
            decreases BACKGROUND_COUNT - i,
        {
            background.push(
                Entity {
                    owner_id: None,
                    color: Color::rgba(
                        random_between(0, UNIT - 1),
                        random_between(0, UNIT - 1),
                        random_between(0, UNIT - 1),
                        20_000,
                    ),
                    pos: random_position(WORLD_SIZE),
                    vel: random_position(UNIT),
                    size: random_between(CAMERA_FOV, 2 * CAMERA_FOV - 1),
                },
            );
            i = i + 1;
        }
        let mut game = Game {
            players: Vec::new(),
            projectiles: Vec::new(),
            food: Vec::new(),
            next_food: 0,
            camera_pos: Vec2 { x: 0, y: 0 },
            background_particles: background,
            mouse_pos: Vec2 { x: 0, y: 0 },
            next_wave_timer: 0,
            next_wave: 1,
            time_played: 0,
            kills: 0,
            waves_finished: 0,
            start: 0,
            next_id: 1,
            music_started: false,
        };
        game.reset();
        game
    }

    /// Whether an opponent may enter the game at `pos`: only farther from
    /// the camera than twice its reach.
    pub fn far_from_camera(&self, pos: Vec2) -> (far: bool)
        ensures
            far == (spec_distance(self.camera_pos, pos) > 2 * CAMERA_FOV),
    {
        distance(self.camera_pos, pos) > 2 * CAMERA_FOV
    }

    /// Where the next opponent enters the game: random places of the world
    /// are tried until one is far enough from the camera. After
    /// `SPAWN_ATTEMPTS` places that were too near, the far corner is taken.
    pub fn enemy_position(&self) -> (pos: Vec2)
        ensures
            spec_distance(self.camera_pos, pos) > 2 * CAMERA_FOV,
            pos.in_world(),
    {
        let mut attempts: u32 = 0;
        while attempts < SPAWN_ATTEMPTS
            invariant
                attempts <= SPAWN_ATTEMPTS,
            decreases SPAWN_ATTEMPTS - attempts,
        {
            let candidate = random_position(WORLD_SIZE);
            if self.far_from_camera(candidate) {
                return candidate;
            }
            attempts = attempts + 1;
        }
        proof {
            lemma_far_corner(self.camera_pos);
        }
        offset(self.camera_pos, Vec2 { x: WORLD_SIZE, y: WORLD_SIZE })
    }

    /// Lets one opponent enter the game, out of the camera's sight. When
    /// the identities are exhausted, none enters.
    pub fn spawn_enemy(&mut self)
        requires
            old(self).wf(),
        ensures
            final(self).wf(),
            old(self).next_id == usize::MAX ==> *final(self) == *old(self),
            old(self).next_id < usize::MAX ==> {
                &&& *final(self) == (Game {
                    players: final(self).players,
                    next_id: (old(self).next_id + 1) as usize,
                    ..*old(self)
                })
                &&& final(self).players@.len() == old(self).players@.len() + 1
                &&& final(self).players@.drop_last() == old(self).players@
                &&& Self::is_new_enemy(
                    final(self).players@.last(),
                    old(self).next_id,
                    final(self).players@.last().entity.pos,
                )
                &&& final(self).players@.last().entity.pos.in_world()
                &&& spec_distance(old(self).camera_pos, final(self).players@.last().entity.pos) > 2
                    * CAMERA_FOV
            },
    {
        match self.fresh_id() {
            Some(id) => {
                let pos = self.enemy_position();
                let enemy = Player::new(pos, Color::red(), Controller::Bot(BotController), 1, id);
                self.players.push(enemy);
                proof {
                    assert(self.players@.drop_last() =~= old(self).players@);
                }
            },
            None => {},
        }
    }

    /// Takes over what the person at the keyboard is doing: the state of
    /// keys, button and pointer goes to every player that the keyboard
    /// steers.
    pub fn set_input(&mut self, input: KeyboardController)
        ensures
            *final(self) == (Game {
                players: final(self).players,
                mouse_pos: input.pointer,
                ..*old(self)
            }),
            final(self).players@.len() == old(self).players@.len(),
            forall|i: int|
                0 <= i < old(self).players@.len() ==> #[trigger] final(self).players@[i]
                    == (Player {
                    controller: if old(self).players@[i].controller is Keyboard {
                        Controller::Keyboard(input)
                    } else {
                        old(self).players@[i].controller
                    },
                    ..old(self).players@[i]
                }),
            old(self).wf() ==> final(self).wf(),
    {
        self.mouse_pos = input.pointer;
        let mut i: usize = 0;
        while i < self.players.len()
            invariant
                i <= self.players@.len(),
                self.players@.len() == old(self).players@.len(),
                *self == (Game { players: self.players, mouse_pos: input.pointer, ..*old(self) }),
                forall|j: int| i <= j < self.players@.len() ==>
                    self.players@[j] == old(self).players@[j],
                forall|j: int|
                    0 <= j < i ==> #[trigger] self.players@[j] == (Player {
                        controller: if old(self).players@[j].controller is Keyboard {
                            Controller::Keyboard(input)
                        } else {
                            old(self).players@[j].controller
                        },
                        ..old(self).players@[j]
                    }),
            decreases self.players@.len() - i,
        {
            let player = &mut self.players[i];
            match player.controller {
                Controller::Keyboard(_) => {
                    player.controller = Controller::Keyboard(input);
                },
                _ => {},
            }
            i = i + 1;
        }
    }

    /// Deals with something that the person at the keyboard did. The first
    /// key or button pressed starts the music. The key R starts the game
    /// anew, the key F asks for the full screen or the window.
    pub fn handle_event(&mut self, event: Event) -> (response: Response)
        requires
            old(self).wf(),
        ensures
            final(self).wf(),
            response.start_music == (!old(self).music_started && (event is KeyDown
                || event is MouseDown)),
            final(self).music_started == (old(self).music_started || event is KeyDown
                || event is MouseDown),
            response.toggle_fullscreen == (event == Event::KeyDown(Key::F)),
            event != Event::KeyDown(Key::R) ==> *final(self) == (Game {
                music_started: final(self).music_started,
                ..*old(self)
            }),
            event == Event::KeyDown(Key::R) ==> (Game {
                music_started: true,
                ..*old(self)
            }).was_reset(*final(self)),
    {
        let pressed = match event {
            Event::KeyDown(_) => true,
            Event::MouseDown => true,
            Event::Other => false,
        };
        let start_music = pressed && !self.music_started;
        if pressed {
            self.music_started = true;
        }
        let mut toggle_fullscreen = false;
        match event {
            Event::KeyDown(Key::R) => {
                self.reset();
            },
            Event::KeyDown(Key::F) => {
                toggle_fullscreen = true;
            },
            _ => {},
        }
        Response { start_music, toggle_fullscreen }
    }
}

} // verus!

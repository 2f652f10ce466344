use lifeshot::bot::BotController;
use lifeshot::color::Color;
use lifeshot::food::Food;
use lifeshot::game::{
    Event, Game, Key, BACKGROUND_COUNT, CAMERA_FOV, DEATH_FOOD_SIZE, FOOD_SIZE_MAX, FOOD_SIZE_MIN,
    FOOD_SPAWN_MAX, MAX_FOOD, TIME_BETWEEN_WAVES, WAVE_PAUSE,
};
use lifeshot::keyboard::KeyboardController;
use lifeshot::player::{Action, Controller, Player, INITIAL_SIZE};
use lifeshot::projectile::Projectile;
use lifeshot::scalar::UNIT;
use lifeshot::sound::{SoundCue, SoundKind};
use lifeshot::space::{distance, Vec2, WORLD_SIZE};

fn enemy(id: usize, x: i64, y: i64) -> Player {
    Player::new(Vec2::new(x, y), Color::red(), Controller::Idle, 1, id)
}

fn quiet() -> Game {
    let mut game = Game::new();
    game.next_food = FOOD_SPAWN_MAX;
    game.next_id = 100;
    game
}

#[test]
fn new_game_holds_one_local_player() {
    let game = Game::new();
    assert_eq!(game.players.len(), 1);
    let me = &game.players[0];
    assert_eq!(me.entity.owner_id, Some(1));
    assert_eq!(me.entity.pos, Vec2::new(0, 0));
    assert_eq!(me.entity.vel, Vec2::new(0, 0));
    assert_eq!(me.entity.size, INITIAL_SIZE);
    assert_eq!(me.entity.color, Color::rgb(UNIT / 2, UNIT / 2, UNIT));
    assert_eq!(me.team_id, 0);
    assert!(matches!(me.controller, Controller::Keyboard(_)));
    assert_eq!(game.next_id, 2);
    assert!(game.projectiles.is_empty());
    assert!(game.food.is_empty());
    assert_eq!(game.next_food, 0);
    assert_eq!(game.next_wave_timer, WAVE_PAUSE);
    assert_eq!(game.next_wave, 1);
    assert_eq!(game.start, 0);
    assert_eq!(game.kills, 0);
    assert_eq!(game.waves_finished, 0);
    assert_eq!(game.time_played, 0);
    assert!(!game.music_started);
    assert!(game.local_player_alive());
    assert_eq!(game.enemies(), 0);
}

#[test]
fn new_game_has_a_random_background() {
    let game = Game::new();
    assert_eq!(game.background_particles.len(), BACKGROUND_COUNT);
    for body in &game.background_particles {
        assert_eq!(body.owner_id, None);
        assert_eq!(body.color.a, 20_000);
        assert!(0 <= body.color.r && body.color.r < UNIT);
        assert!(-WORLD_SIZE <= body.pos.x && body.pos.x < WORLD_SIZE);
        assert!(-WORLD_SIZE <= body.pos.y && body.pos.y < WORLD_SIZE);
        assert!(-UNIT <= body.vel.x && body.vel.x < UNIT);
        assert!(CAMERA_FOV <= body.size && body.size < 2 * CAMERA_FOV);
    }
    let first = game.background_particles[0];
    assert!(game.background_particles.iter().any(|b| b.pos != first.pos));
}

#[test]
fn reset_starts_anew_and_never_reuses_an_identity() {
    let mut game = Game::new();
    game.spawn_enemy();
    game.food.push(Food::new(Vec2::new(0, 0), 100_000));
    game.projectiles.push(Projectile::new(Some(1), Color::white()));
    game.kills = 3;
    game.time_played = 5;
    game.start = 7 * UNIT;
    game.next_wave = 4;
    game.waves_finished = 3;
    game.camera_pos = Vec2::new(1, 2);
    assert_eq!(game.next_id, 3);
    game.reset();
    assert_eq!(game.players.len(), 1);
    assert_eq!(game.players[0].entity.owner_id, Some(3));
    assert_eq!(game.players[0].team_id, 0);
    assert_eq!(game.next_id, 4);
    assert!(game.food.is_empty());
    assert!(game.projectiles.is_empty());
    assert_eq!(game.kills, 0);
    assert_eq!(game.time_played, 0);
    assert_eq!(game.start, 0);
    assert_eq!(game.next_wave, 1);
    assert_eq!(game.waves_finished, 0);
    assert_eq!(game.next_wave_timer, WAVE_PAUSE);
    assert_eq!(game.camera_pos, Vec2::new(1, 2));
    assert_eq!(game.background_particles.len(), BACKGROUND_COUNT);
}

#[test]
fn identities_run_out_without_being_reused() {
    let mut game = Game::new();
    game.next_id = usize::MAX - 1;
    assert_eq!(game.fresh_id(), Some(usize::MAX - 1));
    assert_eq!(game.fresh_id(), None);
    assert_eq!(game.fresh_id(), None);
    assert_eq!(game.next_id, usize::MAX);
    let before = game.players.len();
    game.spawn_enemy();
    assert_eq!(game.players.len(), before);
    game.reset();
    assert!(game.players.is_empty());
    assert!(!game.local_player_alive());
}

#[test]
fn enemies_enter_out_of_sight() {
    let mut game = Game::new();
    game.camera_pos = Vec2::new(40 * UNIT, -45 * UNIT);
    for i in 0..200 {
        game.spawn_enemy();
        let e = game.players.last().unwrap();
        assert_eq!(e.entity.owner_id, Some(2 + i));
        assert_eq!(e.team_id, 1);
        assert!(matches!(e.controller, Controller::Bot(_)));
        assert_eq!(e.entity.size, INITIAL_SIZE);
        assert_eq!(e.entity.color, Color::red());
        assert!(distance(game.camera_pos, e.entity.pos) > 2 * CAMERA_FOV);
        assert!(game.far_from_camera(e.entity.pos));
        assert!(e.entity.pos.x.abs() <= WORLD_SIZE && e.entity.pos.y.abs() <= WORLD_SIZE);
    }
    assert_eq!(game.players.len(), 201);
    assert_eq!(game.enemies(), 200);
    let first = game.players[1].entity.pos;
    assert!(game.players.iter().skip(1).any(|p| p.entity.pos != first));
    assert!(!game.far_from_camera(Vec2::new(40 * UNIT, -15 * UNIT)));
    assert!(game.far_from_camera(Vec2::new(40 * UNIT, -14_999_999)));
}

#[test]
fn food_appears_in_time_and_stays_under_the_cap() {
    let mut game = Game::new();
    assert_eq!(game.next_food, 0);
    let dt = 16_667;
    let mut elapsed = 0;
    while elapsed <= 100_000 {
        game.update(dt);
        elapsed += dt;
        assert!(game.food.len() <= MAX_FOOD);
    }
    assert!(!game.food.is_empty());
    for _ in 0..1500 {
        game.update(dt);
        assert!(game.food.len() <= MAX_FOOD);
        assert!(0 <= game.next_food && game.next_food < FOOD_SPAWN_MAX);
    }
    assert!(game.food.len() > MAX_FOOD / 2);
    for f in &game.food {
        assert!(f.entity.size <= FOOD_SIZE_MAX);
        assert!(f.entity.pos.x.abs() <= WORLD_SIZE && f.entity.pos.y.abs() <= WORLD_SIZE);
    }
}

#[test]
fn spawn_food_follows_the_timer() {
    let mut game = quiet();
    game.next_food = 30_000;
    game.spawn_food(20_000);
    assert_eq!(game.next_food, 10_000);
    assert!(game.food.is_empty());
    game.spawn_food(10_000);
    assert_eq!(game.next_food, 0);
    assert!(game.food.is_empty());
    game.spawn_food(1);
    assert_eq!(game.food.len(), 1);
    assert!(49_999 <= game.next_food && game.next_food < 99_999);
    let f = &game.food[0];
    assert!(FOOD_SIZE_MIN <= f.entity.size && f.entity.size < FOOD_SIZE_MAX);
    assert_eq!(f.entity.owner_id, None);
    assert_eq!(f.entity.color, Color::green());
    assert_eq!(f.time, 0);
    let mut long = quiet();
    long.next_food = 0;
    long.spawn_food(UNIT);
    assert!(11 <= long.food.len() && long.food.len() <= 20);
    assert!(0 <= long.next_food && long.next_food < FOOD_SPAWN_MAX);
}

#[test]
fn spawn_food_stops_at_the_cap() {
    let mut game = quiet();
    for _ in 0..MAX_FOOD + 3 {
        game.food.push(Food::new(Vec2::new(0, 0), 100_000));
    }
    game.next_food = 0;
    game.spawn_food(UNIT);
    assert_eq!(game.food.len(), MAX_FOOD + 3);
    let mut nearly = quiet();
    for _ in 0..MAX_FOOD - 1 {
        nearly.food.push(Food::new(Vec2::new(0, 0), 100_000));
    }
    nearly.next_food = 0;
    nearly.spawn_food(UNIT);
    assert_eq!(nearly.food.len(), MAX_FOOD);
}

#[test]
fn food_sizes_lean_toward_the_small_end() {
    assert_eq!(lifeshot::feeding::food_size(0), 100_000);
    assert_eq!(lifeshot::feeding::food_size(UNIT / 2), 125_000);
    assert_eq!(lifeshot::feeding::food_size(900_000), 362_440);
    assert_eq!(lifeshot::feeding::food_size(UNIT - 1), 499_998);
    assert_eq!(lifeshot::feeding::food_size(UNIT), 500_000);
}

#[test]
fn the_first_wave_waits_for_the_game_to_begin() {
    let mut game = quiet();
    game.next_wave_timer = 5;
    game.update(100);
    assert_eq!(game.next_wave_timer, 5);
    assert_eq!(game.players.len(), 1);
    assert_eq!(game.time_played, 0);
    assert_eq!(game.players[0].entity.size, INITIAL_SIZE);
}

#[test]
fn waves_bring_more_enemies_each_time() {
    let mut game = quiet();
    game.start = 6 * UNIT;
    game.next_wave_timer = 50;
    game.update(100);
    assert_eq!(game.next_wave_timer, TIME_BETWEEN_WAVES);
    assert_eq!(game.players.len(), 2);
    assert_eq!(game.enemies(), 1);
    assert_eq!(game.next_wave, 2);
    assert_eq!(game.waves_finished, 0);
    assert_eq!(game.time_played, 100);
    assert_eq!(game.players[1].entity.owner_id, Some(100));
    assert_eq!(game.players[1].team_id, 1);
    assert!(distance(game.camera_pos, game.players[1].entity.pos) > 2 * CAMERA_FOV);
    game.update(100);
    assert_eq!(game.next_wave_timer, TIME_BETWEEN_WAVES - 100);
    game.next_wave_timer = 99;
    game.update(100);
    assert_eq!(game.players.len(), 4);
    assert_eq!(game.next_wave, 3);
    assert_eq!(game.waves_finished, 1);
    assert_eq!(game.next_id, 103);
    assert_eq!(game.time_played, 300);
}

#[test]
fn the_wave_timer_is_cut_while_no_enemy_is_left() {
    let mut game = quiet();
    game.next_wave_timer = TIME_BETWEEN_WAVES;
    game.update(1_000);
    assert_eq!(game.next_wave_timer, WAVE_PAUSE);
    game.start = 6 * UNIT;
    game.update(1_000);
    assert_eq!(game.next_wave_timer, WAVE_PAUSE - 1_000);
    let mut busy = quiet();
    busy.players.push(enemy(50, 30 * UNIT, 0));
    busy.next_wave_timer = TIME_BETWEEN_WAVES;
    busy.start = 6 * UNIT;
    busy.update(1_000);
    assert_eq!(busy.next_wave_timer, TIME_BETWEEN_WAVES - 1_000);
}

#[test]
fn a_long_step_is_taken_whole() {
    let mut game = quiet();
    // with the world full of food far away, no food appears near the player
    for _ in 0..MAX_FOOD {
        game.food.push(Food::new(Vec2::new(40 * UNIT, 40 * UNIT), 100_000));
    }
    game.start = 6 * UNIT;
    game.next_wave_timer = WAVE_PAUSE;
    game.update(4 * UNIT);
    assert_eq!(game.time_played, 4 * UNIT);
    assert_eq!(game.next_wave_timer, WAVE_PAUSE - 4 * UNIT);
    // the player has lost a twentieth of its radius a second
    assert_eq!(game.players[0].entity.size, INITIAL_SIZE - 200_000);
    assert_eq!(game.players.len(), 1);
    // the timer stands at 6 seconds: a step of 7 passes it and the wave enters
    game.update(7 * UNIT);
    assert_eq!(game.time_played, 11 * UNIT);
    assert_eq!(game.next_wave_timer, TIME_BETWEEN_WAVES);
    assert_eq!(game.next_wave, 2);
    assert_eq!(game.enemies(), 1);
    assert_eq!(game.players[1].team_id, 1);
    assert!(distance(game.camera_pos, game.players[1].entity.pos) > 2 * CAMERA_FOV);
    assert_eq!(game.food.len(), MAX_FOOD);
    assert!(game.is_valid());
}

#[test]
fn a_negative_step_counts_as_none() {
    let mut game = quiet();
    game.start = 6 * UNIT;
    game.next_wave_timer = WAVE_PAUSE;
    game.update(-5);
    game.update(i64::MIN);
    assert_eq!(game.time_played, 0);
    assert_eq!(game.next_wave_timer, WAVE_PAUSE);
    assert_eq!(game.next_food, FOOD_SPAWN_MAX);
    assert_eq!(game.players[0].entity.size, INITIAL_SIZE);
    assert_eq!(game.players[0].entity.pos, Vec2::new(0, 0));
}

#[test]
fn an_hour_in_one_step_ends_the_game() {
    let mut game = quiet();
    game.start = 6 * UNIT;
    game.players.push(enemy(50, 30 * UNIT, 0));
    let cues = game.update(3_600 * UNIT);
    assert!(game.players.iter().all(|p| p.entity.owner_id != Some(1) && p.entity.owner_id != Some(50)));
    assert!(!game.local_player_alive());
    assert_eq!(game.kills, 1);
    assert_eq!(game.time_played, 3_600 * UNIT);
    assert_eq!(game.next_wave, 2);
    assert_eq!(game.food.len(), MAX_FOOD);
    assert_eq!(cues.iter().filter(|c| c.kind == SoundKind::Death).count(), 2);
    assert!(game.is_valid());
}

#[test]
fn the_dead_leave_no_food_above_the_cap() {
    let mut game = quiet();
    game.start = 6 * UNIT;
    for _ in 0..MAX_FOOD - 1 {
        game.food.push(Food::new(Vec2::new(40 * UNIT, 40 * UNIT), 100_000));
    }
    for (i, x) in [10, 20, 30].iter().enumerate() {
        let mut weak = enemy(50 + i, x * UNIT, 0);
        weak.entity.size = 0;
        game.players.push(weak);
    }
    let cues = game.bury_players(true);
    // the first of the dead fills the world up; the others leave nothing
    assert_eq!(game.food.len(), MAX_FOOD);
    assert_eq!(game.food[MAX_FOOD - 1].entity.pos, Vec2::new(10 * UNIT, 0));
    assert_eq!(game.food[MAX_FOOD - 1].entity.size, DEATH_FOOD_SIZE);
    assert_eq!(game.kills, 3);
    assert_eq!(cues.len(), 3);
    assert_eq!(game.players.len(), 1);
    let mut full = quiet();
    for _ in 0..MAX_FOOD {
        full.food.push(Food::new(Vec2::new(40 * UNIT, 40 * UNIT), 100_000));
    }
    let mut idle = enemy(60, 10 * UNIT, 0);
    idle.entity.size = 0;
    full.players.push(idle);
    let cues = full.update(0);
    assert_eq!(full.food.len(), MAX_FOOD);
    assert_eq!(cues, vec![SoundCue { kind: SoundKind::Death, pos: Vec2::new(10 * UNIT, 0) }]);
    assert_eq!(full.kills, 1);
}

#[test]
fn players_shrink_once_the_game_has_begun() {
    let mut game = quiet();
    game.update(100_000);
    assert_eq!(game.players[0].entity.size, INITIAL_SIZE);
    game.start = 6 * UNIT;
    game.next_food = FOOD_SPAWN_MAX;
    game.update(100_000);
    // 1/20 a second
    assert_eq!(game.players[0].entity.size, INITIAL_SIZE - 5_000);
    assert_eq!(game.players[0].prev_size, INITIAL_SIZE - 5_000);
}

#[test]
fn a_dead_enemy_leaves_food_and_counts_as_a_kill() {
    let mut game = quiet();
    game.start = 6 * UNIT;
    let mut weak = enemy(50, 20 * UNIT, 20 * UNIT);
    weak.entity.size = 100;
    game.players.push(weak);
    game.players.push(enemy(51, -20 * UNIT, 20 * UNIT));
    let cues = game.update(100_000);
    assert_eq!(game.players.len(), 2);
    assert_eq!(game.players[1].entity.owner_id, Some(51));
    assert_eq!(game.kills, 1);
    assert_eq!(game.food.len(), 1);
    assert_eq!(game.food[0].entity.pos, Vec2::new(20 * UNIT, 20 * UNIT));
    assert_eq!(game.food[0].entity.size, DEATH_FOOD_SIZE);
    assert_eq!(game.food[0].parts.len(), 17);
    assert_eq!(cues, vec![SoundCue { kind: SoundKind::Death, pos: Vec2::new(20 * UNIT, 20 * UNIT) }]);
    assert_eq!(game.enemies(), 1);
}

#[test]
fn the_death_food_restores_a_new_player() {
    // eaten up with the food factor 3, the death food gives the mass of a new player
    let mass = DEATH_FOOD_SIZE as i128 * DEATH_FOOD_SIZE as i128 * 3;
    assert!(mass <= 1_000_000_000_000);
    assert!(mass > 999_999_000_000);
}

#[test]
fn kills_do_not_count_after_the_local_player_is_gone() {
    let mut game = quiet();
    game.start = 6 * UNIT;
    game.players.clear();
    let mut weak = enemy(50, 0, 0);
    weak.entity.size = 100;
    game.players.push(weak);
    let cues = game.update(100_000);
    assert!(game.players.is_empty());
    assert_eq!(game.kills, 0);
    assert_eq!(game.time_played, 0);
    assert_eq!(cues.len(), 1);
    assert_eq!(game.food.len(), 1);
}

#[test]
fn the_local_player_can_die() {
    let mut game = quiet();
    game.start = 6 * UNIT;
    game.players[0].entity.size = 4_000;
    let cues = game.update(100_000);
    assert!(game.players.is_empty());
    assert!(!game.local_player_alive());
    assert_eq!(game.kills, 0);
    assert_eq!(cues.len(), 1);
    assert_eq!(cues[0].kind, SoundKind::Death);
    // the step in which the player dies still counts as played
    assert_eq!(game.time_played, 100_000);
    game.update(100_000);
    assert_eq!(game.time_played, 100_000);
}

#[test]
fn decide_asks_every_controller() {
    let mut game = quiet();
    let pointer = Vec2::new(2 * UNIT, 0);
    game.set_input(KeyboardController::new(true, false, false, false, true, pointer));
    assert_eq!(game.mouse_pos, pointer);
    let mut bot = Player::new(Vec2::new(5 * UNIT, 0), Color::red(), Controller::Bot(BotController), 1, 50);
    bot.entity.size = UNIT;
    game.players.push(bot);
    game.food.push(Food::new(Vec2::new(5 * UNIT, 3 * UNIT), 100_000));
    game.decide();
    assert_eq!(
        game.players[0].action,
        Action { target_vel: Vec2::new(0, UNIT), shoot: Some(pointer) }
    );
    assert_eq!(
        game.players[1].action,
        Action { target_vel: Vec2::new(0, 3 * UNIT), shoot: Some(Vec2::new(0, 0)) }
    );
    assert_eq!(game.players[1].controller, Controller::Bot(BotController));
}

#[test]
fn the_keyboard_moves_the_local_player() {
    let mut game = quiet();
    game.set_input(KeyboardController::new(false, false, false, true, false, Vec2::new(0, 0)));
    game.update(100_000);
    assert_eq!(game.players[0].entity.vel, Vec2::new(1_500_000, 0));
    assert_eq!(game.players[0].entity.pos, Vec2::new(150_000, 0));
}

#[test]
fn a_released_projectile_flies_decays_and_goes() {
    let mut game = quiet();
    // with the world full of food far away, no food appears near the player
    for _ in 0..MAX_FOOD {
        game.food.push(Food::new(Vec2::new(40 * UNIT, 40 * UNIT), 100_000));
    }
    let aim = Vec2::new(10 * UNIT, 0);
    game.set_input(KeyboardController::new(false, false, false, false, true, aim));
    for _ in 0..10 {
        let cues = game.update(100_000);
        assert!(cues.is_empty());
    }
    assert!(game.projectiles.is_empty());
    let held = game.players[0].projectile.as_ref().unwrap().entity.size;
    let held_at = game.players[0].projectile.as_ref().unwrap().entity.pos;
    assert!(540_000 < held && held <= 547_722);
    // on the rim that the player had before it paid for the last step
    assert!(game.players[0].entity.size < held_at.x && held_at.x < UNIT);
    assert_eq!(held_at.y, 0);
    game.set_input(KeyboardController::new(false, false, false, false, false, aim));
    let cues = game.update(100_000);
    assert_eq!(cues.len(), 1);
    assert_eq!(cues[0].kind, SoundKind::Shoot);
    assert!(game.players[0].projectile.is_none());
    assert_eq!(game.projectiles.len(), 1);
    let shot = &game.projectiles[0];
    assert_eq!(shot.entity.owner_id, Some(1));
    assert_eq!(shot.entity.vel, Vec2::new(25 * UNIT, 0));
    // it was let go where it was held, then decayed and flew for one step; its owner is spared
    assert_eq!(shot.entity.size, held - 10_000);
    assert_eq!(shot.entity.pos, Vec2::new(held_at.x + 2_500_000, 0));
    let owner_size = game.players[0].entity.size;
    let mut steps = 0;
    while !game.projectiles.is_empty() {
        game.update(100_000);
        steps += 1;
        assert!(steps < 100);
        assert_eq!(game.players[0].entity.size, owner_size);
    }
    assert!(steps >= 53);
}

#[test]
fn a_projectile_hurts_others_but_not_its_owner() {
    let mut game = quiet();
    game.players.push(enemy(50, 3 * UNIT, 0));
    let mut own = Projectile::new(Some(1), Color::white());
    own.entity.size = UNIT;
    own.entity.pos = Vec2::new(0, 0);
    let mut foreign = Projectile::new(Some(50), Color::red());
    foreign.entity.size = UNIT;
    foreign.entity.pos = Vec2::new(1_500_000, 0);
    game.projectiles.push(own);
    game.projectiles.push(foreign);
    game.projectiles_hit_players();
    // the own projectile lies on its owner and spares it; it is too far from the enemy
    assert_eq!(game.projectiles[0].entity.size, UNIT);
    assert!(!game.projectiles[0].actually_hit);
    // the enemy's projectile strikes the local player and spares the enemy
    assert_eq!(game.players[0].entity.size, UNIT / 2);
    assert_eq!(game.players[1].entity.size, UNIT);
    assert_eq!(game.projectiles[1].entity.size, 0);
    assert!(game.projectiles[1].actually_hit);
}

#[test]
fn projectiles_strike_each_other() {
    let mut game = quiet();
    let mut first = Projectile::new(Some(1), Color::white());
    first.entity.size = UNIT;
    first.entity.pos = Vec2::new(0, 0);
    let mut second = Projectile::new(Some(1), Color::white());
    second.entity.size = 2 * UNIT;
    second.entity.pos = Vec2::new(0, 2_500_000);
    game.projectiles.push(first);
    game.projectiles.push(second);
    game.projectiles_hit_projectiles();
    // the later one strikes the earlier one and pays what it took
    assert_eq!(game.projectiles[0].entity.size, UNIT / 2);
    assert_eq!(game.projectiles[1].entity.size, 1_802_775);
}

#[test]
fn spent_projectiles_go_with_a_sound_if_they_hit() {
    let mut game = quiet();
    let mut hit = Projectile::new(Some(1), Color::white());
    hit.actually_hit = true;
    hit.entity.pos = Vec2::new(7, 8);
    let mut missed = Projectile::new(Some(1), Color::white());
    missed.entity.pos = Vec2::new(1, 1);
    let mut flying = Projectile::new(Some(1), Color::white());
    flying.entity.size = UNIT;
    flying.actually_hit = true;
    game.projectiles = vec![hit, missed, flying];
    let cues = game.bury_projectiles();
    assert_eq!(cues, vec![SoundCue { kind: SoundKind::Hit, pos: Vec2::new(7, 8) }]);
    assert_eq!(game.projectiles.len(), 1);
    assert_eq!(game.projectiles[0].entity.size, UNIT);
}

#[test]
fn players_push_each_other_apart() {
    let mut game = quiet();
    game.players.push(enemy(50, UNIT, 0));
    game.players.push(enemy(51, 10 * UNIT, 0));
    game.collide_players();
    assert_eq!(game.players[0].entity.pos, Vec2::new(-UNIT / 2, 0));
    assert_eq!(game.players[1].entity.pos, Vec2::new(3 * UNIT / 2, 0));
    assert_eq!(game.players[2].entity.pos, Vec2::new(10 * UNIT, 0));
    assert_eq!(game.players[0].entity.size, INITIAL_SIZE);
    assert_eq!(game.players[1].entity.owner_id, Some(50));
}

#[test]
fn players_eat_food() {
    let mut game = quiet();
    game.food.push(Food::new(Vec2::new(100_000, 0), 300_000));
    game.food.push(Food::new(Vec2::new(1_200_000, 0), 400_000));
    game.food.push(Food::new(Vec2::new(30 * UNIT, 0), 400_000));
    let cues = game.feed_players();
    assert_eq!(cues, vec![SoundCue { kind: SoundKind::Heal, pos: Vec2::new(100_000, 0) }]);
    assert_eq!(game.food[0].entity.size, 0);
    // the first food gives 3 * 0.09 and the radius 1.126942; the second is then deeper in
    // the grown player, shrinks by 0.326942 and gives three times what it lost
    assert_eq!(game.food[1].entity.size, 400_000 - 326_942);
    assert_eq!(game.players[0].entity.size, 1_316_808);
    assert_eq!(game.food[2].entity.size, 400_000);
    game.clear_food();
    assert_eq!(game.food.len(), 2);
    assert_eq!(game.food[1].entity.pos, Vec2::new(30 * UNIT, 0));
}

#[test]
fn events_start_the_music_reset_and_toggle() {
    let mut game = quiet();
    game.kills = 4;
    let nothing = game.handle_event(Event::Other);
    assert!(!nothing.start_music && !nothing.toggle_fullscreen);
    assert!(!game.music_started);
    let first = game.handle_event(Event::MouseDown);
    assert!(first.start_music && !first.toggle_fullscreen);
    assert!(game.music_started);
    let full = game.handle_event(Event::KeyDown(Key::F));
    assert!(!full.start_music && full.toggle_fullscreen);
    assert_eq!(game.kills, 4);
    let other = game.handle_event(Event::KeyDown(Key::Other));
    assert!(!other.start_music && !other.toggle_fullscreen);
    let reset = game.handle_event(Event::KeyDown(Key::R));
    assert!(!reset.start_music && !reset.toggle_fullscreen);
    assert_eq!(game.kills, 0);
    assert_eq!(game.players.len(), 1);
    assert_eq!(game.players[0].entity.owner_id, Some(100));
    assert!(game.music_started);
    let mut fresh = quiet();
    assert!(fresh.handle_event(Event::KeyDown(Key::R)).start_music);
}

#[test]
fn the_background_drifts() {
    let mut game = quiet();
    let before: Vec<_> = game.background_particles.clone();
    game.drift_background(UNIT);
    for (now, was) in game.background_particles.iter().zip(before.iter()) {
        let mut moved = *was;
        moved.update(UNIT);
        assert_eq!(*now, moved);
    }
}

#[test]
fn a_long_game_stays_sound() {
    let mut game = Game::new();
    game.start = 6 * UNIT;
    game.next_wave_timer = 0;
    let aim = Vec2::new(10 * UNIT, 3 * UNIT);
    for step in 0..3000 {
        let fire = step % 40 < 25;
        game.set_input(KeyboardController::new(step % 7 < 3, false, false, step % 5 < 2, fire, aim));
        if step % 500 == 0 {
            game.next_wave_timer = 0;
        }
        game.update(16_667);
        assert!(game.is_valid());
        assert!(game.food.len() <= MAX_FOOD);
        for p in &game.players {
            assert!(p.entity.size >= 0);
            assert!(p.entity.pos.x.abs() <= WORLD_SIZE && p.entity.pos.y.abs() <= WORLD_SIZE);
        }
        for q in &game.projectiles {
            assert!(q.entity.size >= 0);
            assert!(q.sparks.iter().all(|s| s.age < 300_000));
        }
        for f in &game.food {
            assert!(f.entity.size > 0);
        }
        let ids: Vec<usize> = game.players.iter().map(|p| p.entity.owner_id.unwrap()).collect();
        assert!(ids.windows(2).all(|w| w[0] < w[1]));
        assert!(ids.iter().all(|id| *id < game.next_id));
    }
    assert!(game.next_wave >= 2);
}

#[test]
fn the_sounds_of_a_step_come_in_the_order_of_the_players() {
    let mut game = quiet();
    game.start = 6 * UNIT;
    let mut shooter = enemy(50, 20 * UNIT, 0);
    let mut held = Projectile::new(Some(50), Color::red());
    held.entity.size = UNIT / 2;
    held.entity.pos = Vec2::new(21 * UNIT, 0);
    held.entity.vel = Vec2::new(25 * UNIT, 0);
    shooter.projectile = Some(held);
    shooter.entity.size = 100;
    let mut weak = enemy(51, -20 * UNIT, 0);
    weak.entity.size = 100;
    game.players.push(shooter);
    game.players.push(weak);
    let shots = game.step_players(100_000);
    assert_eq!(shots, vec![SoundCue { kind: SoundKind::Shoot, pos: Vec2::new(21 * UNIT, 0) }]);
    assert_eq!(game.players.len(), 3);
    assert_eq!(game.projectiles.len(), 1);
    assert_eq!(game.projectiles[0].entity.owner_id, Some(50));
    assert_eq!(game.projectiles[0].entity.pos, Vec2::new(21 * UNIT, 0));
    assert_eq!(game.projectiles[0].entity.vel, Vec2::new(25 * UNIT, 0));
    assert_eq!(game.projectiles[0].entity.size, UNIT / 2);
    assert!(game.food.is_empty());
    assert_eq!(game.kills, 0);
    let deaths = game.bury_players(true);
    assert_eq!(
        deaths,
        vec![
            SoundCue { kind: SoundKind::Death, pos: Vec2::new(20 * UNIT, 0) },
            SoundCue { kind: SoundKind::Death, pos: Vec2::new(-20 * UNIT, 0) },
        ]
    );
    assert_eq!(game.food.len(), 2);
    assert_eq!(game.food[0].entity.pos, Vec2::new(20 * UNIT, 0));
    assert_eq!(game.food[0].entity.size, DEATH_FOOD_SIZE);
    assert_eq!(game.food[1].entity.pos, Vec2::new(-20 * UNIT, 0));
    assert_eq!(game.kills, 2);
    assert_eq!(game.players.len(), 1);
    assert_eq!(game.players[0].team_id, 0);
    assert!(game.bury_players(true).is_empty());
    assert_eq!(game.kills, 2);
}

#[test]
fn projectiles_in_flight_decay() {
    let mut game = quiet();
    let mut shot = Projectile::new(Some(1), Color::white());
    shot.entity.size = 15_000;
    shot.entity.pos = Vec2::new(10 * UNIT, 0);
    shot.entity.vel = Vec2::new(0, 25 * UNIT);
    game.projectiles.push(shot);
    game.step_projectiles(100_000);
    assert_eq!(game.projectiles[0].entity.size, 5_000);
    assert_eq!(game.projectiles[0].entity.pos, Vec2::new(10 * UNIT, 2_500_000));
    game.step_projectiles(100_000);
    assert_eq!(game.projectiles[0].entity.size, 0);
    game.step_projectiles(100_000);
    assert_eq!(game.projectiles[0].entity.size, 0);
    assert!(game.bury_projectiles().is_empty());
    assert!(game.projectiles.is_empty());
}

#[test]
fn validity_is_checked() {
    let mut game = quiet();
    assert!(game.is_valid());
    game.players.push(enemy(50, 0, 0));
    game.players.push(enemy(60, 0, 0));
    assert!(game.is_valid());
    game.players[2].entity.owner_id = Some(50);
    assert!(!game.is_valid());
    game.players[2].entity.owner_id = Some(100);
    assert!(!game.is_valid());
    game.players[2].entity.owner_id = None;
    assert!(!game.is_valid());
    game.players[2].entity.owner_id = Some(99);
    assert!(game.is_valid());
    game.players[1].entity.size = -1;
    assert!(!game.is_valid());
    game.players[1].entity.size = 1;
    game.players[1].projectile = Some(Projectile::new(Some(51), Color::white()));
    assert!(!game.is_valid());
    game.players[1].projectile = Some(Projectile::new(Some(50), Color::white()));
    assert!(game.is_valid());
    game.next_food = -1;
    assert!(!game.is_valid());
    game.next_food = 0;
    game.next_wave_timer = TIME_BETWEEN_WAVES + 1;
    assert!(!game.is_valid());
    game.next_wave_timer = 0;
    game.food.push(Food::new(Vec2::new(0, 0), 100_000));
    game.food[0].time = UNIT + 1;
    assert!(!game.is_valid());
    game.food[0].time = UNIT;
    assert!(game.is_valid());
    let mut stale = Projectile::new(None, Color::white());
    stale.push_spark(Vec2::new(0, 0), 0);
    stale.sparks[0].age = 300_000;
    game.projectiles.push(stale);
    assert!(!game.is_valid());
    game.projectiles[0].sparks[0].age = 299_999;
    assert!(game.is_valid());
}

#[test]
fn no_wave_comes_once_the_local_player_is_gone() {
    let mut game = quiet();
    game.start = 6 * UNIT;
    game.players.clear();
    game.players.push(enemy(50, 30 * UNIT, 0));
    game.next_wave_timer = 50;
    game.next_wave = 3;
    game.update(100);
    assert_eq!(game.players.len(), 1);
    assert_eq!(game.next_wave_timer, 50);
    assert_eq!(game.next_wave, 3);
    assert_eq!(game.waves_finished, 0);
    assert_eq!(game.time_played, 0);
    game.players.clear();
    game.next_wave_timer = TIME_BETWEEN_WAVES;
    game.update(100);
    assert_eq!(game.next_wave_timer, TIME_BETWEEN_WAVES);
}

#[test]
fn the_wave_of_the_last_step_still_comes() {
    let mut game = quiet();
    game.start = 6 * UNIT;
    game.players[0].entity.size = 1;
    game.next_wave_timer = 50;
    game.update(100);
    // the local player was in the game when the step began
    assert!(!game.local_player_alive());
    assert_eq!(game.enemies(), 1);
    assert_eq!(game.next_wave, 2);
    assert_eq!(game.next_wave_timer, TIME_BETWEEN_WAVES);
}

#[test]
fn a_player_killed_by_a_projectile_counts_in_the_same_step() {
    let mut game = quiet();
    let mut victim = enemy(50, 20 * UNIT, 0);
    victim.entity.size = 100_000;
    game.players.push(victim);
    let mut shot = Projectile::new(Some(1), Color::white());
    shot.entity.size = UNIT;
    shot.entity.pos = Vec2::new(20 * UNIT, 0);
    game.projectiles.push(shot);
    let cues = game.update(0);
    assert_eq!(game.players.len(), 1);
    assert_eq!(game.kills, 1);
    assert_eq!(game.food.len(), 1);
    assert_eq!(game.food[0].entity.pos, Vec2::new(20 * UNIT, 0));
    assert_eq!(cues, vec![SoundCue { kind: SoundKind::Death, pos: Vec2::new(20 * UNIT, 0) }]);
    // the projectile paid twice the mass 0.01 that it took
    assert_eq!(game.projectiles.len(), 1);
    assert_eq!(game.projectiles[0].entity.size, 989_949);
    assert!(game.projectiles[0].actually_hit);
}

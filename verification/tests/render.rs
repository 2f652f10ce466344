use lifeshot::color::Color;
use lifeshot::entity::ParticleInstance;
use lifeshot::food::Food;
use lifeshot::game::{Game, BACKGROUND_COUNT, CAMERA_FOV, START};
use lifeshot::player::{Controller, Player};
use lifeshot::projectile::Projectile;
use lifeshot::render::{AimCue, Hud, AIM_TICKS};
use lifeshot::scalar::UNIT;
use lifeshot::sound::volume;
use lifeshot::space::Vec2;

fn opponent(id: usize, x: i64, y: i64) -> Player {
    Player::new(Vec2::new(x, y), Color::red(), Controller::Idle, 1, id)
}

#[test]
fn the_camera_follows_the_local_player() {
    let mut game = Game::new();
    game.next_id = 100;
    game.players[0].entity.pos = Vec2::new(3 * UNIT, -4 * UNIT);
    assert!(game.focus());
    assert_eq!(game.camera_pos, Vec2::new(3 * UNIT, -4 * UNIT));
    assert_eq!(game.start, 5 * UNIT);
    game.players[0].entity.pos = Vec2::new(UNIT, 0);
    assert!(game.focus());
    assert_eq!(game.camera_pos, Vec2::new(UNIT, 0));
    assert_eq!(game.start, 5 * UNIT);
    game.players.clear();
    game.players.push(opponent(50, 9 * UNIT, 0));
    assert!(!game.focus());
    assert_eq!(game.camera_pos, Vec2::new(UNIT, 0));
    assert_eq!(game.start, 5 * UNIT);
}

#[test]
fn the_scene_is_drawn_from_the_back_to_the_front() {
    let mut game = Game::new();
    game.next_id = 100;
    game.mouse_pos = Vec2::new(0, 10 * UNIT);
    game.food.push(Food::new(Vec2::new(UNIT, UNIT), 200_000));
    let mut flying = Projectile::new(Some(1), Color::white());
    flying.entity.size = 300_000;
    game.projectiles.push(flying);
    game.players.push(opponent(50, 40 * UNIT, 0));
    game.players.push(opponent(51, 5 * UNIT, 0));
    let out = game.draw(800, 400);
    assert_eq!(out.len(), BACKGROUND_COUNT + AIM_TICKS + 4 + 9 + 1 + 1);
    for (i, body) in game.background_particles.iter().enumerate() {
        assert_eq!(out[i].i_pos, body.pos);
        assert_eq!(out[i].i_size, body.size);
    }
    let ticks = &out[BACKGROUND_COUNT..BACKGROUND_COUNT + AIM_TICKS];
    for (i, tick) in ticks.iter().enumerate() {
        assert_eq!(
            *tick,
            ParticleInstance {
                i_pos: Vec2::new(0, 30 * UNIT * (i as i64 + 1) / 40),
                i_size: 100_000,
                i_color: Color::rgba(UNIT / 2, UNIT / 2, UNIT, 400_000),
            }
        );
    }
    let after = BACKGROUND_COUNT + AIM_TICKS;
    assert_eq!(out[after + 1].i_size, game.food[0].parts[0].entity.size);
    assert_eq!(out[after + 4].i_size, UNIT);
    assert_eq!(out[after + 4 + 9].i_size, 300_000);
    // the picture is twice as wide as high: the camera sees 30 to each side
    assert_eq!(
        out[after + 4 + 9 + 1],
        ParticleInstance {
            i_pos: Vec2::new(30 * UNIT, 0),
            i_size: UNIT,
            i_color: Color { a: UNIT / 2, ..Color::red() },
        }
    );
}

#[test]
fn enemies_out_of_sight_are_marked_at_the_edge() {
    let mut game = Game::new();
    game.next_id = 100;
    game.players.push(opponent(50, -20 * UNIT, 20 * UNIT));
    game.players.push(opponent(51, 14 * UNIT, -14 * UNIT));
    game.players.push(opponent(52, 45 * UNIT, -49 * UNIT));
    let out = game.draw(100, 100);
    let marks = &out[out.len() - 2..];
    assert_eq!(marks[0].i_pos, Vec2::new(-15 * UNIT, 15 * UNIT));
    assert_eq!(marks[1].i_pos, Vec2::new(15 * UNIT, -15 * UNIT));
    let tall = game.draw(100, 0);
    assert_eq!(tall.len(), out.len());
    assert_eq!(tall[tall.len() - 2].i_pos, Vec2::new(-20 * UNIT, 15 * UNIT));
    let narrow = game.draw(100, 200);
    assert_eq!(narrow.len(), out.len() + 1);
    assert_eq!(narrow[narrow.len() - 2].i_pos, Vec2::new(7_500_000, -14 * UNIT));
}

#[test]
fn there_is_no_line_of_aim_without_the_local_player() {
    let mut game = Game::new();
    game.players.clear();
    let out = game.draw(100, 100);
    assert_eq!(out.len(), BACKGROUND_COUNT);
}

#[test]
fn the_overlay_follows_the_state_of_the_game() {
    let mut game = Game::new();
    game.next_id = 100;
    assert_eq!(game.hud(), Hud::Intro { alpha: UNIT });
    game.start = START / 4;
    assert_eq!(game.hud(), Hud::Intro { alpha: 750_000 });
    game.start = START;
    game.next_wave_timer = 9_999_999;
    game.next_wave = 3;
    game.players.push(opponent(50, 0, 0));
    game.players.push(opponent(51, 0, 0));
    assert_eq!(game.hud(), Hud::Active { next_wave: 3, seconds: 9, enemies: 2 });
    game.players.remove(0);
    game.time_played = 61_500_000;
    game.waves_finished = 2;
    game.kills = 5;
    assert_eq!(game.hud(), Hud::GameOver { seconds_played: 61, waves_finished: 2, kills: 5 });
}

#[test]
fn aiming_sounds_fade_with_the_distance() {
    assert_eq!(volume(Vec2::new(0, 0), Vec2::new(0, 0)), UNIT);
    assert_eq!(volume(Vec2::new(15 * UNIT, 0), Vec2::new(0, 0)), 750_000);
    assert_eq!(volume(Vec2::new(0, 3 * UNIT), Vec2::new(0, 0)), 990_000);
    assert_eq!(volume(Vec2::new(0, 0), Vec2::new(29_999_999, 0)), 2);
    assert_eq!(volume(Vec2::new(0, 0), Vec2::new(2 * CAMERA_FOV, 0)), 0);
    assert_eq!(volume(Vec2::new(0, 0), Vec2::new(50 * UNIT, 50 * UNIT)), 0);
    assert_eq!(volume(Vec2::new(49 * UNIT, 0), Vec2::new(-48 * UNIT, 0)), 990_000);
}

#[test]
fn aiming_players_are_listed_with_their_loudness() {
    let mut game = Game::new();
    game.next_id = 100;
    let mut near = opponent(50, 15 * UNIT, 0);
    near.aiming = true;
    let mut far = opponent(51, 40 * UNIT, 0);
    far.aiming = true;
    game.players.push(near);
    game.players.push(opponent(52, UNIT, 0));
    game.players.push(far);
    assert_eq!(
        game.aiming_players(),
        vec![AimCue { id: 50, volume: 750_000 }, AimCue { id: 51, volume: 0 }]
    );
    game.players[0].aiming = true;
    assert_eq!(game.aiming_players()[0], AimCue { id: 1, volume: UNIT });
}

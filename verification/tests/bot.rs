use lifeshot::bot::BotController;
use lifeshot::color::Color;
use lifeshot::food::Food;
use lifeshot::game::Game;
use lifeshot::player::{Action, Controller, Player};
use lifeshot::projectile::Projectile;
use lifeshot::scalar::UNIT;
use lifeshot::space::Vec2;

fn world(players: Vec<Player>, food: Vec<Food>) -> Game {
    let mut game = Game::new();
    game.players = players;
    game.food = food;
    game.next_id = 100;
    game
}

fn bot(id: usize, x: i64, y: i64, size: i64) -> Player {
    let mut p = Player::new(Vec2::new(x, y), Color::red(), Controller::Bot(BotController), 1, id);
    p.entity.size = size;
    p
}

fn human(id: usize, x: i64, y: i64) -> Player {
    Player::new(Vec2::new(x, y), Color::white(), Controller::Idle, 0, id)
}

#[test]
fn small_bot_without_projectile_does_not_shoot() {
    let game = world(vec![human(1, 3 * UNIT, 0), bot(2, 0, 0, UNIT / 2)], vec![]);
    let action = BotController.act(2, &game);
    assert_eq!(action.shoot, None);
    assert_eq!(action.target_vel, Vec2::new(0, 0));
}

#[test]
fn bot_at_the_threshold_starts_to_shoot_at_the_enemy() {
    let game = world(vec![human(1, 3 * UNIT, 0), bot(2, 0, 0, 700_000)], vec![]);
    assert_eq!(BotController.act(2, &game).shoot, Some(Vec2::new(3 * UNIT, 0)));
    let below = world(vec![human(1, 3 * UNIT, 0), bot(2, 0, 0, 699_999)], vec![]);
    assert_eq!(BotController.act(2, &below).shoot, None);
}

#[test]
fn bot_without_enemy_does_not_shoot() {
    let game = world(vec![bot(2, 0, 0, UNIT), bot(3, UNIT, 0, UNIT)], vec![]);
    assert_eq!(BotController.act(2, &game).shoot, None);
    assert_eq!(BotController.act(3, &game).shoot, None);
}

#[test]
fn bot_heads_for_the_nearest_food() {
    let food = vec![
        Food::new(Vec2::new(10 * UNIT, 0), 200_000),
        Food::new(Vec2::new(0, -4 * UNIT), 200_000),
        Food::new(Vec2::new(4 * UNIT, 0), 200_000),
    ];
    let game = world(vec![bot(2, 0, 0, UNIT / 2)], food);
    // two foods are equally near: the first of them is taken
    assert_eq!(BotController.act(2, &game).target_vel, Vec2::new(0, -4 * UNIT));
}

#[test]
fn bot_sees_food_across_the_edge() {
    let food = vec![
        Food::new(Vec2::new(40 * UNIT, 0), 200_000),
        Food::new(Vec2::new(-48 * UNIT, UNIT), 200_000),
    ];
    let game = world(vec![bot(2, 49 * UNIT, 0, UNIT / 2)], food);
    assert_eq!(BotController.act(2, &game).target_vel, Vec2::new(3 * UNIT, UNIT));
}

#[test]
fn bot_picks_the_nearest_player_of_another_side() {
    let players = vec![
        bot(2, 0, 0, UNIT),
        bot(3, UNIT, 0, UNIT),
        human(4, -6 * UNIT, 0),
        human(5, 0, 5 * UNIT),
        human(6, 5 * UNIT, 0),
    ];
    let game = world(players, vec![]);
    assert_eq!(BotController.act(2, &game).shoot, Some(Vec2::new(0, 5 * UNIT)));
}

#[test]
fn bot_keeps_aiming_while_the_projectile_would_arrive_large_enough() {
    let mut me = bot(2, 0, 0, UNIT);
    let mut held = Projectile::new(Some(2), Color::red());
    held.entity.pos = Vec2::new(UNIT, 0);
    held.entity.size = UNIT;
    me.projectile = Some(held);
    let mut enemy = human(1, 6 * UNIT, 0);
    enemy.entity.vel = Vec2::new(-2 * UNIT, 4 * UNIT);
    let game = world(vec![enemy, me], vec![]);
    // the flight over the distance 5 takes 0.2; the enemy moves on meanwhile
    assert_eq!(BotController.act(2, &game).shoot, Some(Vec2::new(5_600_000, 800_000)));
}

#[test]
fn bot_holds_fire_when_the_projectile_would_arrive_too_small() {
    let mut me = bot(2, 0, 0, UNIT);
    let mut held = Projectile::new(Some(2), Color::red());
    held.entity.pos = Vec2::new(UNIT, 0);
    // after the flight of 0.2 it would have the radius 0.29, 0.3 and 0.300001
    held.entity.size = 310_000;
    me.projectile = Some(held);
    let game = world(vec![human(1, 6 * UNIT, 0), me], vec![]);
    assert_eq!(BotController.act(2, &game).shoot, None);
    let mut game = game;
    game.players[1].projectile.as_mut().unwrap().entity.size = 320_000;
    assert_eq!(BotController.act(2, &game).shoot, None);
    game.players[1].projectile.as_mut().unwrap().entity.size = 320_001;
    assert_eq!(BotController.act(2, &game).shoot, Some(Vec2::new(6 * UNIT, 0)));
}

#[test]
fn helpers_find_players_food_and_enemies() {
    let players = vec![human(4, 0, 0), bot(7, UNIT, 0, UNIT), bot(9, 2 * UNIT, 0, UNIT)];
    assert_eq!(BotController::index_of(&players, 4), 0);
    assert_eq!(BotController::index_of(&players, 9), 2);
    assert_eq!(BotController::index_of(&players, 5), 3);
    assert_eq!(BotController::closest_enemy(Vec2::new(0, 0), 0, &players), Some(1));
    assert_eq!(BotController::closest_enemy(Vec2::new(0, 0), 1, &players), Some(0));
    assert_eq!(BotController::closest_enemy(Vec2::new(0, 0), 2, &players), Some(0));
    assert_eq!(BotController::closest_enemy(Vec2::new(0, 0), 0, &Vec::new()), None);
    assert_eq!(BotController::closest_food(Vec2::new(0, 0), &Vec::new()), None);
    let food = vec![Food::new(Vec2::new(UNIT, UNIT), 100_000), Food::new(Vec2::new(UNIT, 0), 100_000)];
    assert_eq!(BotController::closest_food(Vec2::new(0, 0), &food), Some(1));
}

#[test]
fn controllers_decide_by_their_kind() {
    let game = world(vec![human(1, 3 * UNIT, 0), bot(2, 0, 0, UNIT)], vec![]);
    assert_eq!(Controller::Idle.act(1, &game), Action::idle());
    assert_eq!(
        Controller::Bot(BotController).act(2, &game),
        Action { target_vel: Vec2::new(0, 0), shoot: Some(Vec2::new(3 * UNIT, 0)) }
    );
    assert_eq!(game.players[1].act(&game).shoot, Some(Vec2::new(3 * UNIT, 0)));
    assert_eq!(game.players[0].act(&game), Action::idle());
}

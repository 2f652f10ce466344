use lifeshot::color::{mix, Color};
use lifeshot::entity::{Entity, ParticleInstance};
use lifeshot::keyboard::KeyboardController;
use lifeshot::player::{
    Action, Controller, Player, INITIAL_SIZE, MAX_AIMING_SPEED, MAX_SPEED, PROJECTILE_SPEED,
    PULSE_PERIOD,
};
use lifeshot::projectile::Projectile;
use lifeshot::scalar::UNIT;
use lifeshot::space::{advance, Vec2};

fn player_at(x: i64, y: i64) -> Player {
    Player::new(Vec2::new(x, y), Color::rgb(UNIT / 2, UNIT / 2, UNIT), Controller::Idle, 0, 5)
}

#[test]
fn new_player_starts_at_rest() {
    let p = player_at(UNIT, 2 * UNIT);
    assert_eq!(
        p.entity,
        Entity {
            owner_id: Some(5),
            color: Color::rgb(UNIT / 2, UNIT / 2, UNIT),
            pos: Vec2::new(UNIT, 2 * UNIT),
            vel: Vec2::new(0, 0),
            size: INITIAL_SIZE,
        }
    );
    assert_eq!(p.prev_size, INITIAL_SIZE);
    assert_eq!(p.team_id, 0);
    assert_eq!(p.controller, Controller::Idle);
    assert!(p.projectile.is_none());
    assert_eq!(p.action, Action::idle());
    assert_eq!(Action::default(), Action::idle());
    assert_eq!(Action::idle(), Action { target_vel: Vec2::new(0, 0), shoot: None });
    assert!(p.is_valid());
    assert_eq!(p.time, 0);
    assert!(!p.aiming);
}

#[test]
fn desired_velocity_is_clamped_and_scaled() {
    let stand = Action { target_vel: Vec2::new(0, 0), shoot: None };
    assert_eq!(stand.desired_velocity(), Vec2::new(0, 0));
    let right = Action { target_vel: Vec2::new(UNIT, 0), shoot: None };
    assert_eq!(right.desired_velocity(), Vec2::new(MAX_SPEED, 0));
    let far = Action { target_vel: Vec2::new(0, -30 * UNIT), shoot: None };
    assert_eq!(far.desired_velocity(), Vec2::new(0, -MAX_SPEED));
    let slow = Action { target_vel: Vec2::new(UNIT / 4, 0), shoot: None };
    assert_eq!(slow.desired_velocity(), Vec2::new(2 * UNIT, 0));
    let diagonal = Action { target_vel: Vec2::new(UNIT, UNIT), shoot: None };
    assert_eq!(diagonal.desired_velocity(), Vec2::new(5_656_856, 5_656_856));
    let aiming = Action { target_vel: Vec2::new(UNIT, 0), shoot: Some(Vec2::new(0, 0)) };
    assert_eq!(aiming.desired_velocity(), Vec2::new(MAX_AIMING_SPEED, 0));
    let aiming_diagonal = Action { target_vel: Vec2::new(UNIT, UNIT), shoot: Some(Vec2::new(0, 0)) };
    assert_eq!(aiming_diagonal.desired_velocity(), Vec2::new(2_828_427, 2_828_427));
    let aiming_slow = Action { target_vel: Vec2::new(UNIT / 4, 0), shoot: Some(Vec2::new(0, 0)) };
    assert_eq!(aiming_slow.desired_velocity(), Vec2::new(2 * UNIT, 0));
}

#[test]
fn update_steers_with_bounded_acceleration() {
    let mut p = player_at(0, 0);
    p.action = Action { target_vel: Vec2::new(UNIT, 0), shoot: None };
    let released = p.update(100_000);
    assert!(released.is_none());
    // the speed may change by 15 * 0.1 = 1.5
    assert_eq!(p.entity.vel, Vec2::new(1_500_000, 0));
    assert_eq!(p.entity.pos, Vec2::new(150_000, 0));
    assert_eq!(p.entity.size, INITIAL_SIZE);
    assert_eq!(p.prev_size, INITIAL_SIZE);
    assert_eq!(p.time, 100_000);
    assert!(!p.aiming);
    for _ in 0..5 {
        p.update(100_000);
    }
    assert_eq!(p.entity.vel, Vec2::new(MAX_SPEED, 0));
    p.action = Action::idle();
    p.update(100_000);
    assert_eq!(p.entity.vel, Vec2::new(6_500_000, 0));
}

#[test]
fn update_without_time_changes_nothing_but_the_memory() {
    let mut p = player_at(UNIT, UNIT);
    p.entity.size = 800_000;
    p.action = Action { target_vel: Vec2::new(UNIT, 0), shoot: None };
    assert!(p.update(0).is_none());
    assert_eq!(p.entity.pos, Vec2::new(UNIT, UNIT));
    assert_eq!(p.entity.vel, Vec2::new(0, 0));
    assert_eq!(p.entity.size, 800_000);
    assert_eq!(p.prev_size, 800_000);
}

#[test]
fn the_pulse_phase_wraps() {
    let mut p = player_at(0, 0);
    p.time = PULSE_PERIOD - 10;
    p.update(25);
    assert_eq!(p.time, 15);
}

#[test]
fn aiming_holds_a_growing_projectile_on_the_rim() {
    let mut p = player_at(0, 0);
    p.action = Action { target_vel: Vec2::new(0, 0), shoot: Some(Vec2::new(3 * UNIT, 4 * UNIT)) };
    let released = p.update(100_000);
    assert!(released.is_none());
    assert!(p.aiming);
    // the aiming costs the mass 0.1 * 0.1
    assert_eq!(p.entity.size, 994_987);
    assert_eq!(p.prev_size, INITIAL_SIZE);
    let charge = p.projectile.as_ref().unwrap();
    assert_eq!(charge.entity.owner_id, Some(5));
    assert_eq!(charge.entity.color, mix(Color::rgb(UNIT / 2, UNIT / 2, UNIT), Color::white()));
    // on the rim of the player, which still had the radius 1, toward the target
    assert_eq!(charge.entity.pos, Vec2::new(600_000, 800_000));
    assert_eq!(charge.entity.vel, Vec2::new(15 * UNIT, 20 * UNIT));
    assert_eq!(charge.entity.vel.len(), PROJECTILE_SPEED);
    // the mass 0.3 * 0.1
    assert_eq!(charge.entity.size, 173_205);
    p.update(100_000);
    let charge = p.projectile.as_ref().unwrap();
    // the mass 0.06
    assert_eq!(charge.entity.size, 244_948);
    assert_eq!(charge.entity.pos, Vec2::new(596_992, 795_989));
}

#[test]
fn aiming_at_a_near_target_holds_the_projectile_there() {
    let mut p = player_at(0, 0);
    p.action = Action { target_vel: Vec2::new(0, 0), shoot: Some(Vec2::new(300_000, 0)) };
    p.update(10_000);
    let charge = p.projectile.as_ref().unwrap();
    assert_eq!(charge.entity.pos, Vec2::new(300_000, 0));
    assert_eq!(charge.entity.vel, Vec2::new(PROJECTILE_SPEED, 0));
}

#[test]
fn aiming_across_the_edge_takes_the_short_way() {
    let mut p = player_at(49_500_000, 0);
    p.action = Action { target_vel: Vec2::new(0, 0), shoot: Some(Vec2::new(-49 * UNIT, 0)) };
    p.update(10_000);
    let charge = p.projectile.as_ref().unwrap();
    assert_eq!(charge.entity.pos, Vec2::new(-49_500_000, 0));
    assert_eq!(charge.entity.vel, Vec2::new(PROJECTILE_SPEED, 0));
}

#[test]
fn releasing_returns_the_projectile_as_the_last_aiming_left_it() {
    let mut p = player_at(0, 0);
    let mut held = Projectile::new(Some(5), Color::white());
    held.entity.size = 400_000;
    held.entity.pos = Vec2::new(600_000, 800_000);
    held.entity.vel = Vec2::new(15 * UNIT, 20 * UNIT);
    held.next_spark = 77;
    p.projectile = Some(held);
    p.aiming = true;
    p.action = Action { target_vel: Vec2::new(UNIT, 0), shoot: None };
    let shot = p.update(16_667).unwrap();
    assert!(p.projectile.is_none());
    assert!(!p.aiming);
    assert_eq!(shot.entity.pos, Vec2::new(600_000, 800_000));
    assert_eq!(shot.entity.vel, Vec2::new(15 * UNIT, 20 * UNIT));
    assert_eq!(shot.entity.size, 400_000);
    assert_eq!(shot.entity.owner_id, Some(5));
    assert_eq!(shot.next_spark, 77);
    assert!(shot.sparks.is_empty());
    // the player itself has moved on
    assert_eq!(p.entity.vel, Vec2::new(250_005, 0));
    assert_eq!(p.entity.size, INITIAL_SIZE);
    assert!(p.update(16_667).is_none());
    assert!(p.projectile.is_none());
}

#[test]
fn a_projectile_in_the_making_takes_its_own_step() {
    let mut p = player_at(0, 0);
    let mut held = Projectile::new(Some(5), Color::white());
    held.entity.size = UNIT;
    held.entity.pos = Vec2::new(UNIT, 0);
    p.projectile = Some(held);
    p.action = Action { target_vel: Vec2::new(0, 0), shoot: Some(Vec2::new(10 * UNIT, 0)) };
    assert!(p.update(10_000).is_none());
    let charge = p.projectile.as_ref().unwrap();
    // five sparks are due for the mass 1 in a hundredth of a second
    assert_eq!(charge.sparks.len(), 5);
    assert!(charge.sparks.iter().all(|s| s.age == 10_000));
    assert_eq!(charge.entity.pos, Vec2::new(UNIT, 0));
    assert_eq!(charge.entity.vel, Vec2::new(PROJECTILE_SPEED, 0));
}

#[test]
fn firing_and_releasing_leaves_no_projectile() {
    let mut p = player_at(0, 0);
    assert!(p.projectile.is_none());
    p.action = Action { target_vel: Vec2::new(0, 0), shoot: Some(Vec2::new(0, 5 * UNIT)) };
    assert!(p.update(50_000).is_none());
    assert!(p.update(50_000).is_none());
    assert!(p.projectile.is_some());
    p.action = Action::idle();
    let shot = p.update(50_000).unwrap();
    assert!(p.projectile.is_none());
    assert!(!p.aiming);
    assert_eq!(shot.entity.owner_id, p.entity.owner_id);
    assert_eq!(shot.entity.vel, Vec2::new(0, PROJECTILE_SPEED));
    // the mass 0.3 * 0.1, less what two roots rounded away
    assert_eq!(shot.entity.size, 173_204);
    assert!(p.update(50_000).is_none());
}

#[test]
fn draw_shows_rim_body_and_highlight() {
    let mut p = player_at(UNIT, 0);
    let mut out: Vec<ParticleInstance> = Vec::new();
    p.draw(&mut out);
    assert_eq!(out.len(), 3);
    let color = Color::rgb(UNIT / 2, UNIT / 2, UNIT);
    assert_eq!(
        out[0],
        ParticleInstance {
            i_pos: Vec2::new(UNIT, 0),
            i_size: UNIT,
            i_color: mix(color, Color::black()),
        }
    );
    assert_eq!(out[1], ParticleInstance { i_pos: Vec2::new(UNIT, 0), i_size: 900_000, i_color: color });
    assert_eq!(
        out[2],
        ParticleInstance {
            i_pos: Vec2::new(UNIT, 0),
            i_size: 900_000,
            i_color: Color::rgba(UNIT, UNIT, UNIT, 100_000),
        }
    );
    p.time = PULSE_PERIOD / 2;
    let mut low: Vec<ParticleInstance> = Vec::new();
    p.draw(&mut low);
    assert_eq!(low[2].i_size, 450_000);
    p.time = PULSE_PERIOD / 4;
    let mut mid: Vec<ParticleInstance> = Vec::new();
    p.draw(&mut mid);
    assert_eq!(mid[2].i_size, 506_250);
    let mut held = Projectile::new(Some(5), Color::white());
    held.entity.size = 400_000;
    p.projectile = Some(held);
    let mut with_charge: Vec<ParticleInstance> = Vec::new();
    p.draw(&mut with_charge);
    assert_eq!(with_charge.len(), 4);
    assert_eq!(with_charge[0].i_size, 400_000);
}

#[test]
fn keyboard_controller_turns_keys_into_an_action() {
    let pointer = Vec2::new(3, 4);
    let none = KeyboardController::new(false, false, false, false, false, pointer);
    assert_eq!(none.act(), Action { target_vel: Vec2::new(0, 0), shoot: None });
    let up_right = KeyboardController::new(true, false, false, true, false, pointer);
    assert_eq!(up_right.act(), Action { target_vel: Vec2::new(UNIT, UNIT), shoot: None });
    let down_left = KeyboardController::new(false, true, true, false, true, pointer);
    assert_eq!(
        down_left.act(),
        Action { target_vel: Vec2::new(-UNIT, -UNIT), shoot: Some(pointer) }
    );
    let all = KeyboardController::new(true, true, true, true, true, pointer);
    assert_eq!(all.act(), Action { target_vel: Vec2::new(0, 0), shoot: Some(pointer) });
}

#[test]
fn a_long_step_steers_all_the_way_and_no_further() {
    let mut p = player_at(0, 0);
    p.action = Action { target_vel: Vec2::new(0, -UNIT), shoot: None };
    assert!(p.update(2 * UNIT).is_none());
    // the speed could change by 30 in two seconds: it stops at what the action asks for
    assert_eq!(p.entity.vel, Vec2::new(0, -MAX_SPEED));
    assert_eq!(p.entity.pos, Vec2::new(0, -16 * UNIT));
    assert_eq!(p.time, 2 * UNIT - PULSE_PERIOD);
    let mut q = player_at(0, 0);
    q.action = Action { target_vel: Vec2::new(UNIT, 0), shoot: None };
    assert!(q.update(i64::MAX).is_none());
    assert_eq!(q.entity.vel, Vec2::new(MAX_SPEED, 0));
    assert!(q.entity.pos.x.abs() <= 50 * UNIT);
}

#[test]
fn a_long_step_of_aiming_costs_by_the_second() {
    let mut p = player_at(0, 0);
    p.action = Action { target_vel: Vec2::new(0, 0), shoot: Some(Vec2::new(0, 3 * UNIT)) };
    assert!(p.update(2 * UNIT).is_none());
    // the projectile has the mass 0.6, the player has paid 0.2
    assert_eq!(p.projectile.as_ref().unwrap().entity.size, 774_596);
    assert_eq!(p.entity.size, 894_427);
    assert!(p.update(20 * UNIT).is_none());
    assert_eq!(p.entity.size, 0);
    p.action = Action::idle();
    let shot = p.update(5 * UNIT).unwrap();
    assert!(p.projectile.is_none());
    assert_eq!(shot.entity.owner_id, Some(5));
    assert_eq!(shot.entity.vel, Vec2::new(0, PROJECTILE_SPEED));
}

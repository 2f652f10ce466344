use lifeshot::color::{mix, Color};
use lifeshot::entity::{Entity, ParticleInstance, MASS_MAX, SIZE_MAX};
use lifeshot::scalar::UNIT;
use lifeshot::space::{distance, Vec2};

fn body(x: i64, y: i64, size: i64) -> Entity {
    Entity {
        owner_id: None,
        color: Color::white(),
        pos: Vec2::new(x, y),
        vel: Vec2::new(0, 0),
        size,
    }
}

#[test]
fn mass_is_the_square_of_the_size() {
    assert_eq!(body(0, 0, 0).mass(), 0);
    assert_eq!(body(0, 0, UNIT).mass(), 1_000_000_000_000);
    assert_eq!(body(0, 0, 3 * UNIT).mass(), 9_000_000_000_000);
    assert_eq!(body(0, 0, SIZE_MAX).mass(), MASS_MAX);
}

#[test]
fn add_mass_takes_the_root_of_the_new_mass() {
    let mut e = body(0, 0, 3 * UNIT);
    e.add_mass(16_000_000_000_000);
    assert_eq!(e.size, 5 * UNIT);
    e.add_mass(-9_000_000_000_000);
    assert_eq!(e.size, 4 * UNIT);
    e.add_mass(0);
    assert_eq!(e.size, 4 * UNIT);
    e.add_mass(1);
    assert_eq!(e.size, 4 * UNIT);
    e.add_mass(-2);
    assert_eq!(e.size, 4 * UNIT - 1);
}

#[test]
fn add_mass_never_leaves_a_negative_size() {
    let deltas: [i128; 7] =
        [0, -1, -999_999_999_999, -1_000_000_000_000, -1_000_000_000_001, i128::MIN, i128::MAX];
    let sizes = [0, 1, UNIT / 2, UNIT, 1000 * UNIT, SIZE_MAX];
    for size in sizes {
        for delta in deltas {
            let mut e = body(0, 0, size);
            e.add_mass(delta);
            assert!(e.size >= 0);
            assert!(e.size <= SIZE_MAX);
        }
    }
    let mut e = body(0, 0, UNIT);
    e.add_mass(-2_000_000_000_000);
    assert_eq!(e.size, 0);
    let mut e = body(0, 0, UNIT);
    e.add_mass(i128::MAX);
    assert_eq!(e.size, SIZE_MAX);
}

#[test]
fn update_moves_along_the_velocity_and_wraps() {
    let mut e = body(49 * UNIT, 0, UNIT);
    e.vel = Vec2::new(20 * UNIT, -10 * UNIT);
    e.update(UNIT / 10);
    assert_eq!(e.pos, Vec2::new(-49 * UNIT, -UNIT));
    assert_eq!(e.vel, Vec2::new(20 * UNIT, -10 * UNIT));
    assert_eq!(e.size, UNIT);
}

#[test]
fn collide_separates_two_equal_bodies() {
    let mut a = body(0, 0, UNIT);
    let mut b = body(UNIT, 0, UNIT);
    Entity::collide(&mut a, &mut b);
    assert_eq!(a.pos, Vec2::new(-UNIT / 2, 0));
    assert_eq!(b.pos, Vec2::new(3 * UNIT / 2, 0));
    assert_eq!(distance(a.pos, b.pos), 2 * UNIT);
    assert_eq!(a.size, UNIT);
    assert_eq!(b.size, UNIT);
    assert_eq!(a.vel, Vec2::new(0, 0));
    assert_eq!(b.vel, Vec2::new(0, 0));
}

#[test]
fn collide_separates_across_the_edge_of_the_world() {
    let mut a = body(49_500_000, 0, UNIT);
    let mut b = body(-49_500_000, 0, UNIT);
    assert_eq!(distance(a.pos, b.pos), UNIT);
    Entity::collide(&mut a, &mut b);
    assert_eq!(a.pos, Vec2::new(49 * UNIT, 0));
    assert_eq!(b.pos, Vec2::new(-49 * UNIT, 0));
    assert_eq!(distance(a.pos, b.pos), 2 * UNIT);
}

#[test]
fn collide_moves_the_heavier_body_less() {
    let mut a = body(0, 0, 2 * UNIT);
    let mut b = body(0, 2 * UNIT, UNIT);
    Entity::collide(&mut a, &mut b);
    // penetration 1.0; masses 4 and 1: the heavy one gives way by 1/5, the light one by 4/5
    assert_eq!(a.pos, Vec2::new(0, -200_000));
    assert_eq!(b.pos, Vec2::new(0, 2_800_000));
    assert_eq!(distance(a.pos, b.pos), 3 * UNIT);
}

#[test]
fn collide_caps_the_penetration_at_the_smaller_size() {
    let mut a = body(0, 0, 4 * UNIT);
    let mut b = body(UNIT, 0, UNIT);
    Entity::collide(&mut a, &mut b);
    // overlap 4.0, capped at 1.0; masses 16 and 1
    assert_eq!(a.pos, Vec2::new(-58_823, 0));
    assert_eq!(b.pos, Vec2::new(UNIT + 941_176, 0));
}

#[test]
fn collide_leaves_distant_and_concentric_bodies_alone() {
    let mut a = body(0, 0, UNIT);
    let mut b = body(2 * UNIT, 0, UNIT);
    Entity::collide(&mut a, &mut b);
    assert_eq!(a.pos, Vec2::new(0, 0));
    assert_eq!(b.pos, Vec2::new(2 * UNIT, 0));
    let mut c = body(5, 5, UNIT);
    let mut d = body(5, 5, UNIT);
    Entity::collide(&mut c, &mut d);
    assert_eq!(c.pos, Vec2::new(5, 5));
    assert_eq!(d.pos, Vec2::new(5, 5));
    let mut e = body(0, 0, 0);
    let mut f = body(0, 1, UNIT);
    Entity::collide(&mut e, &mut f);
    assert_eq!(e.pos, Vec2::new(0, 0));
    assert_eq!(f.pos, Vec2::new(0, 1));
}

#[test]
fn collide_is_symmetric() {
    let mut a = body(300_000, -200_000, 1_700_000);
    let mut b = body(-900_000, 600_000, 800_000);
    let mut b2 = b;
    let mut a2 = a;
    Entity::collide(&mut a, &mut b);
    Entity::collide(&mut b2, &mut a2);
    assert_eq!(a, a2);
    assert_eq!(b, b2);
}

#[test]
fn hit_makes_the_attacker_pay_the_lost_mass_divided_by_k() {
    let mut attacker = body(0, 0, UNIT);
    let mut target = body(1_500_000, 0, UNIT);
    // penetration 0.5: the target shrinks to 0.5 and loses the mass 0.75
    let contact = attacker.hit(&mut target, 3 * UNIT);
    assert!(contact);
    assert_eq!(target.size, UNIT / 2);
    assert_eq!(target.mass(), 250_000_000_000);
    // the attacker pays 0.25 and keeps the mass 0.75
    assert_eq!(attacker.size, 866_025);
    assert!(attacker.mass() <= 750_000_000_000);
    assert!((attacker.size as i128 + 1) * (attacker.size as i128 + 1) > 750_000_000_000);
    assert_eq!(attacker.pos, Vec2::new(0, 0));
    assert_eq!(target.pos, Vec2::new(1_500_000, 0));
}

#[test]
fn hit_with_a_small_k_costs_more_than_the_attacker_has() {
    let mut attacker = body(0, 0, UNIT);
    let mut target = body(1_500_000, 0, UNIT);
    let contact = attacker.hit(&mut target, UNIT / 2);
    assert!(contact);
    assert_eq!(target.size, UNIT / 2);
    assert_eq!(attacker.size, 0);
}

#[test]
fn hit_with_k_one_costs_what_the_target_lost() {
    let mut attacker = body(0, 0, 2 * UNIT);
    let mut target = body(0, 2_500_000, UNIT);
    let contact = attacker.hit(&mut target, UNIT);
    assert!(contact);
    assert_eq!(target.size, UNIT / 2);
    // 4.0 - 0.75 = 3.25
    assert_eq!(attacker.size, 1_802_775);
}

#[test]
fn hit_without_contact_changes_nothing() {
    let mut attacker = body(0, 0, UNIT);
    let mut target = body(2 * UNIT, 0, UNIT);
    assert!(!attacker.hit(&mut target, UNIT));
    assert_eq!(attacker.size, UNIT);
    assert_eq!(target.size, UNIT);
    let mut spent = body(0, 0, 0);
    let mut near = body(1, 0, UNIT);
    assert!(!spent.hit(&mut near, UNIT));
    assert_eq!(near.size, UNIT);
}

#[test]
fn consume_lets_the_eater_gain_the_lost_mass_times_k() {
    let mut eater = body(0, 0, UNIT);
    let mut dish = body(1_200_000, 0, 400_000);
    // penetration 0.2: the dish shrinks to 0.2 and loses the mass 0.16 - 0.04 = 0.12
    eater.consume(&mut dish, 3 * UNIT);
    assert_eq!(dish.size, 200_000);
    // the eater gains 0.36
    assert_eq!(eater.size, 1_166_190);
    assert!(eater.mass() <= 1_360_000_000_000);
    assert!((eater.size as i128 + 1) * (eater.size as i128 + 1) > 1_360_000_000_000);
}

#[test]
fn consume_eats_up_a_dish_inside_the_eater() {
    let mut eater = body(0, 0, UNIT);
    let mut dish = body(100_000, 0, 300_000);
    eater.consume(&mut dish, UNIT);
    assert_eq!(dish.size, 0);
    // 1.0 + 0.09
    assert_eq!(eater.size, 1_044_030);
    let mut far = body(5 * UNIT, 0, 300_000);
    eater.consume(&mut far, UNIT);
    assert_eq!(far.size, 300_000);
    assert_eq!(eater.size, 1_044_030);
}

#[test]
fn draw_appends_the_disc_of_the_body() {
    let e = Entity {
        owner_id: Some(3),
        color: Color::rgb(1, 2, 3),
        pos: Vec2::new(4, 5),
        vel: Vec2::new(6, 7),
        size: 8,
    };
    let mut buffer = vec![ParticleInstance { i_pos: Vec2::new(0, 0), i_size: 0, i_color: Color::black() }];
    e.draw(&mut buffer);
    assert_eq!(buffer.len(), 2);
    assert_eq!(
        buffer[1],
        ParticleInstance { i_pos: Vec2::new(4, 5), i_size: 8, i_color: Color::rgb(1, 2, 3) }
    );
}

#[test]
fn mix_takes_the_mean_of_each_channel() {
    assert_eq!(
        mix(Color::white(), Color::black()),
        Color { r: UNIT / 2, g: UNIT / 2, b: UNIT / 2, a: UNIT }
    );
    assert_eq!(mix(Color::rgba(1, 3, 5, 7), Color::rgba(2, 3, 6, 0)), Color::rgba(1, 3, 5, 3));
    assert_eq!(mix(Color::red(), Color::green()), Color { r: UNIT / 2, g: UNIT / 2, b: 0, a: UNIT });
}

#[test]
fn collide_separates_up_to_the_rounding() {
    let mut seed: u64 = 0x2545_f491_4f6c_dd1d;
    let mut next = |bound: i64| -> i64 {
        seed ^= seed << 13;
        seed ^= seed >> 7;
        seed ^= seed << 17;
        (seed % bound as u64) as i64
    };
    let mut met = 0;
    for _ in 0..20_000 {
        let size_a = 1 + next(25 * UNIT);
        let size_b = 1 + next(25 * UNIT);
        let mut a = body(next(100 * UNIT) - 50 * UNIT, next(100 * UNIT) - 50 * UNIT, size_a);
        let reach = size_a + size_b;
        let mut b = body(a.pos.x + next(2 * reach) - reach, a.pos.y + next(2 * reach) - reach, size_b);
        let overlap = reach - distance(a.pos, b.pos);
        if overlap <= 0 || overlap > size_a.min(size_b) {
            continue;
        }
        met += 1;
        Entity::collide(&mut a, &mut b);
        let apart = distance(a.pos, b.pos);
        assert!(apart >= reach - 10, "{} < {} - 10", apart, reach);
        assert!(apart <= reach);
        assert_eq!(a.size, size_a);
        assert_eq!(b.size, size_b);
    }
    assert!(met > 1000);
    // tiny bodies
    for dx in -6..=6 {
        for dy in -6..=6 {
            for sa in 1..=6 {
                for sb in 1..=6 {
                    let mut a = body(49_999_998, -49_999_999, sa);
                    let mut b = body(49_999_998 + dx, -49_999_999 + dy, sb);
                    let overlap = sa + sb - distance(a.pos, b.pos);
                    if overlap <= 0 || overlap > sa.min(sb) {
                        continue;
                    }
                    Entity::collide(&mut a, &mut b);
                    assert!(distance(a.pos, b.pos) >= sa + sb - 10);
                }
            }
        }
    }
}

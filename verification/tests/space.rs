use lifeshot::scalar::{isqrt, mul_div, UNIT};
use lifeshot::space::{
    advance, delta_pos, distance, normalize, offset, steer, Vec2, WORLD_SIZE,
};

fn v(x: f64, y: f64) -> Vec2 {
    Vec2::new((x * UNIT as f64).round() as i64, (y * UNIT as f64).round() as i64)
}

#[test]
fn isqrt_rounds_down() {
    assert_eq!(isqrt(0), 0);
    assert_eq!(isqrt(1), 1);
    assert_eq!(isqrt(3), 1);
    assert_eq!(isqrt(4), 2);
    assert_eq!(isqrt(24), 4);
    assert_eq!(isqrt(25), 5);
    assert_eq!(isqrt(1_000_000_000_000), 1_000_000);
    assert_eq!(isqrt(999_999_999_999), 999_999);
    assert_eq!(isqrt(u128::MAX), u64::MAX);
}

#[test]
fn mul_div_rounds_toward_zero() {
    assert_eq!(mul_div(7, 3, 2), 10);
    assert_eq!(mul_div(-7, 3, 2), -10);
    assert_eq!(mul_div(7, -3, 2), -10);
    assert_eq!(mul_div(i64::MAX, i64::MAX, i64::MAX), i64::MAX);
}

#[test]
fn normalize_leaves_the_world_unchanged() {
    assert_eq!(normalize(v(0.0, 0.0)), v(0.0, 0.0));
    assert_eq!(normalize(v(50.0, -50.0)), v(50.0, -50.0));
    assert_eq!(normalize(v(12.5, -49.999999)), v(12.5, -49.999999));
}

#[test]
fn normalize_wraps_by_whole_worlds() {
    assert_eq!(normalize(v(51.0, 0.0)), v(-49.0, 0.0));
    assert_eq!(normalize(v(-51.0, 0.0)), v(49.0, 0.0));
    assert_eq!(normalize(v(150.0, -150.0)), v(50.0, -50.0));
    assert_eq!(normalize(v(250.000001, -250.000001)), v(-49.999999, 49.999999));
    assert_eq!(normalize(v(1234.5, -987.25)), v(34.5, 12.75));
    let far = normalize(Vec2::new(i64::MAX, i64::MIN));
    assert!(far.x.abs() <= WORLD_SIZE && far.y.abs() <= WORLD_SIZE);
    assert_eq!((i64::MAX as i128 - far.x as i128) % (2 * WORLD_SIZE as i128), 0);
    assert_eq!((i64::MIN as i128 - far.y as i128) % (2 * WORLD_SIZE as i128), 0);
}

#[test]
fn normalize_is_idempotent() {
    let samples = [
        v(0.0, 0.0),
        v(50.0, 50.0),
        v(-50.0, 50.000001),
        v(75.0, -125.0),
        v(1e6, -1e6),
        Vec2::new(i64::MAX, i64::MIN),
        Vec2::new(i64::MIN + 1, 3),
    ];
    for s in samples {
        let once = normalize(s);
        assert_eq!(normalize(once), once);
        assert!(-WORLD_SIZE <= once.x && once.x <= WORLD_SIZE);
        assert!(-WORLD_SIZE <= once.y && once.y <= WORLD_SIZE);
    }
}

#[test]
fn delta_takes_the_short_way_round() {
    assert_eq!(delta_pos(v(49.0, 0.0), v(-49.0, 0.0)), v(2.0, 0.0));
    assert_eq!(delta_pos(v(-49.0, 0.0), v(49.0, 0.0)), v(-2.0, 0.0));
    assert_eq!(delta_pos(v(1.0, 2.0), v(4.0, 6.0)), v(3.0, 4.0));
    assert_eq!(delta_pos(v(0.0, 40.0), v(0.0, -40.0)), v(0.0, 20.0));
}

#[test]
fn distance_is_at_most_the_straight_distance() {
    let points = [
        v(0.0, 0.0),
        v(49.0, 49.0),
        v(-49.0, 49.0),
        v(-50.0, -50.0),
        v(50.0, 0.0),
        v(10.0, -30.0),
        v(-25.0, 25.0),
    ];
    for a in points {
        for b in points {
            let toroidal = distance(a, b);
            let straight = Vec2::new(b.x - a.x, b.y - a.y).len();
            assert!(toroidal <= straight);
            if (b.x - a.x).abs() <= WORLD_SIZE && (b.y - a.y).abs() <= WORLD_SIZE {
                assert_eq!(toroidal, straight);
            }
            assert_eq!(toroidal, distance(b, a));
        }
    }
}

#[test]
fn distance_examples() {
    assert_eq!(distance(v(0.0, 0.0), v(3.0, 4.0)), 5 * UNIT);
    assert_eq!(distance(v(49.0, 0.0), v(-49.0, 0.0)), 2 * UNIT);
    assert_eq!(distance(v(-50.0, -50.0), v(0.0, 0.0)), 70_710_678);
    assert_eq!(distance(v(7.0, 7.0), v(7.0, 7.0)), 0);
}

#[test]
fn len_rounds_down() {
    assert_eq!(v(3.0, 4.0).len(), 5 * UNIT);
    assert_eq!(v(-3.0, -4.0).len(), 5 * UNIT);
    assert_eq!(Vec2::new(1, 1).len(), 1);
    assert_eq!(Vec2::new(0, 0).len(), 0);
    assert_eq!(v(1.0, 1.0).len(), 1_414_213);
}

#[test]
fn with_len_keeps_the_direction() {
    assert_eq!(v(3.0, 4.0).with_len(10 * UNIT), v(6.0, 8.0));
    assert_eq!(v(-3.0, 4.0).with_len(UNIT), v(-0.6, 0.8));
    assert_eq!(v(0.0, 0.0).with_len(UNIT), v(0.0, 0.0));
    assert_eq!(v(0.0, -2.0).with_len(0), v(0.0, 0.0));
}

#[test]
fn clamp_shortens_only_what_is_longer() {
    assert_eq!(v(3.0, 4.0).clamp(10 * UNIT), v(3.0, 4.0));
    assert_eq!(v(3.0, 4.0).clamp(5 * UNIT), v(3.0, 4.0));
    assert_eq!(v(6.0, 8.0).clamp(5 * UNIT), v(3.0, 4.0));
    assert_eq!(v(-6.0, 8.0).clamp(0), v(0.0, 0.0));
    let huge = Vec2::new(i64::MIN, i64::MAX).clamp(UNIT);
    assert_eq!(huge, Vec2::new(-707_106, 707_106));
}

#[test]
fn scale_multiplies_by_a_fixed_point_factor() {
    assert_eq!(v(1.5, -2.0).scale(2 * UNIT), v(3.0, -4.0));
    assert_eq!(v(1.0, 1.0).scale(UNIT / 2), v(0.5, 0.5));
    assert_eq!(Vec2::new(3, -3).scale(UNIT / 2), Vec2::new(1, -1));
}

#[test]
fn offset_and_advance_wrap() {
    assert_eq!(offset(v(49.0, 0.0), v(2.0, 0.0)), v(-49.0, 0.0));
    assert_eq!(offset(v(1.0, 1.0), v(2.0, -3.0)), v(3.0, -2.0));
    assert_eq!(advance(v(0.0, 0.0), v(8.0, -4.0), UNIT / 2), v(4.0, -2.0));
    assert_eq!(advance(v(49.0, 49.0), v(25.0, 25.0), UNIT / 10), v(-48.5, -48.5));
    assert_eq!(advance(v(1.0, 1.0), v(25.0, 25.0), 0), v(1.0, 1.0));
    let wild = advance(Vec2::new(i64::MAX, i64::MIN), Vec2::new(i64::MAX, i64::MIN), i64::MAX);
    assert!(wild.x.abs() <= WORLD_SIZE && wild.y.abs() <= WORLD_SIZE);
}

#[test]
fn steer_changes_velocity_by_a_bounded_step() {
    assert_eq!(steer(v(0.0, 0.0), v(8.0, 0.0), UNIT), v(1.0, 0.0));
    assert_eq!(steer(v(0.0, 0.0), v(3.0, 4.0), 10 * UNIT), v(3.0, 4.0));
    assert_eq!(steer(v(1.0, 1.0), v(4.0, 5.0), 5 * UNIT), v(4.0, 5.0));
    assert_eq!(steer(v(1.0, 1.0), v(7.0, 9.0), 5 * UNIT), v(4.0, 5.0));
    assert_eq!(steer(v(2.0, 0.0), v(2.0, 0.0), UNIT), v(2.0, 0.0));
}

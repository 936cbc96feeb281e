use harken::geometry::{Point, Rect, Size, STEPS_PER_UNIT, TILE};
use harken::player::{
    friction, Intent, Player, Velocity, CLIMB_SPEED, HITBOX_HEIGHT, HITBOX_WIDTH, RUN_SPEED,
    SHADOW_OFFSET, SPEED_STEPS_PER_UNIT, TICKS_PER_SECOND,
};

fn idle() -> Intent {
    Intent { up: false, down: false, left: false, right: false }
}

#[test]
fn friction_takes_one_percent() {
    assert_eq!(friction(150_000), 148_500);
    assert_eq!(friction(-150_000), -148_500);
    assert_eq!(friction(120_000), 118_800);
    assert_eq!(friction(100), 99);
    assert_eq!(friction(199), 197);
    assert_eq!(friction(-199), -197);
    assert_eq!(friction(0), 0);
}

#[test]
fn friction_decreases_without_crossing_zero() {
    let mut v: i64 = 150_000;
    let mut w: i64 = -150_000;
    for tick in 0..2_000 {
        let next = friction(v);
        assert!(next >= 0);
        assert!(next < v || v == 0);
        if tick < 700 {
            assert!(next > 0);
        }
        v = next;
        let below = friction(w);
        assert!(below <= 0);
        assert!(below > w || w == 0);
        assert_eq!(below, -next);
        w = below;
    }
}

#[test]
fn friction_at_the_limits_of_the_machine() {
    assert_eq!(friction(i64::MAX), (i64::MAX as i128 * 99 / 100) as i64);
    assert_eq!(friction(i64::MIN), (i64::MIN as i128 * 99 / 100) as i64);
    assert_eq!(friction(1), 0);
    assert_eq!(friction(-1), 0);
    assert_eq!(friction(2), 1);
    assert_eq!(friction(-2), -1);
}

#[test]
fn new_player_rests_with_usual_hitbox() {
    let p = Player::new(Point { x: 3, y: 4 });
    assert_eq!(p.position, Point { x: 3, y: 4 });
    assert_eq!(p.velocity, Velocity { x: 0, y: 0 });
    assert_eq!(p.hitbox, Size { w: 30 * STEPS_PER_UNIT, h: 96 * STEPS_PER_UNIT / 10 });
    assert_eq!(HITBOX_WIDTH, TILE * 5 / 8);
    assert_eq!(HITBOX_HEIGHT, TILE / 5);
    assert!(!p.facing_left);
    assert!(p.within_world());
    assert_eq!(p.rect(), Rect::new(3, 4, 1_920_003, 614_404));
}

#[test]
fn thrust_sets_velocity_and_moves() {
    let mut p = Player::new(Point { x: 0, y: 0 });
    p.player_movement(Intent { up: true, down: false, left: false, right: true });
    assert_eq!(p.position, Point { x: 150_000, y: 120_000 });
    assert_eq!(p.position.x as f64 / STEPS_PER_UNIT as f64, 2.34375);
    assert_eq!(p.position.y as f64 / STEPS_PER_UNIT as f64, 1.875);
    assert_eq!(p.velocity, Velocity { x: 148_500, y: 118_800 });
    assert_eq!(p.velocity.x as f64 / SPEED_STEPS_PER_UNIT as f64, 148.5);
    assert!(!p.facing_left);
    p.player_movement(Intent { up: false, down: true, left: true, right: false });
    assert_eq!(p.position, Point { x: 0, y: 0 });
    assert_eq!(p.velocity, Velocity { x: -148_500, y: -118_800 });
    assert!(p.facing_left);
}

#[test]
fn thrust_is_not_additive() {
    let mut p = Player::new(Point { x: 0, y: 0 });
    let right = Intent { up: false, down: false, left: false, right: true };
    for _ in 0..10 {
        p.player_movement(right);
        assert_eq!(p.velocity.x, friction(RUN_SPEED));
    }
    assert_eq!(p.position.x, 10 * RUN_SPEED);
    assert_eq!(CLIMB_SPEED, 120_000);
}

#[test]
fn thrust_replaces_the_old_velocity_before_the_move() {
    let mut p = Player::new(Point { x: 0, y: 0 });
    p.velocity.x = -37 * SPEED_STEPS_PER_UNIT;
    p.facing_left = true;
    p.player_movement(Intent { up: false, down: false, left: false, right: true });
    assert_eq!(p.position.x as f64 / STEPS_PER_UNIT as f64, 150.0 / 64.0);
    assert_eq!(p.velocity.x as f64 / SPEED_STEPS_PER_UNIT as f64, 148.5);
    assert!(!p.facing_left);
}

#[test]
fn a_second_at_full_thrust_covers_the_full_speed() {
    let mut p = Player::new(Point { x: 0, y: 0 });
    for _ in 0..TICKS_PER_SECOND {
        p.player_movement(Intent { up: false, down: true, left: true, right: false });
    }
    assert_eq!(p.position, Point { x: -150 * STEPS_PER_UNIT, y: -120 * STEPS_PER_UNIT });
    assert_eq!(STEPS_PER_UNIT, TICKS_PER_SECOND * SPEED_STEPS_PER_UNIT);
}

#[test]
fn travel_of_a_tick_is_exact_for_every_velocity() {
    for v in [150_000i64, 148_500, 1, -1, 63, -63, 999, 7, -123_457] {
        let mut p = Player::new(Point { x: 1_000, y: -1_000 });
        p.velocity = Velocity { x: v, y: -v };
        p.player_movement(Intent { up: true, down: true, left: true, right: true });
        assert_eq!(p.position, Point { x: 1_000 + v, y: -1_000 - v });
        assert_eq!(
            (p.position.x - 1_000) as f64 / STEPS_PER_UNIT as f64,
            (v as f64 / SPEED_STEPS_PER_UNIT as f64) / TICKS_PER_SECOND as f64
        );
        assert_eq!(p.velocity, Velocity { x: friction(v), y: friction(-v) });
    }
}

#[test]
fn both_directions_on_one_axis_cancel() {
    let mut p = Player::new(Point { x: 100, y: 200 });
    p.velocity = Velocity { x: 6_400, y: -12_800 };
    p.facing_left = true;
    p.player_movement(Intent { up: true, down: true, left: true, right: true });
    assert_eq!(p.position, Point { x: 6_500, y: -12_600 });
    assert_eq!(p.velocity, Velocity { x: 6_336, y: -12_672 });
    assert!(p.facing_left);
}

#[test]
fn release_lets_the_player_drift() {
    let mut p = Player::new(Point { x: 0, y: 0 });
    p.player_movement(Intent { up: false, down: false, left: false, right: true });
    let mut last_x = p.position.x;
    let mut last_v = p.velocity.x;
    for _ in 0..100 {
        p.player_movement(idle());
        assert!(p.position.x > last_x);
        assert!(p.velocity.x < last_v);
        assert!(p.velocity.x > 0);
        assert_eq!(p.position.y, 0);
        last_x = p.position.x;
        last_v = p.velocity.x;
    }
}

#[test]
fn shadow_lies_left_of_the_player() {
    let p = Player::new(Point { x: 400_000, y: 77 });
    assert_eq!(p.shadow(), Point { x: 16_000, y: 77 });
    assert_eq!(SHADOW_OFFSET, 6 * STEPS_PER_UNIT);
    assert_eq!(SHADOW_OFFSET, TILE / 8);
}

#[test]
fn within_world_tells_the_bounds() {
    let mut p = Player::new(Point { x: 1_000_000_000_000_000_000, y: 0 });
    assert!(p.within_world());
    p.position.x += 1;
    assert!(!p.within_world());
    p.position.x = 0;
    p.hitbox.w = -1;
    assert!(!p.within_world());
    p.hitbox.w = 1;
    assert!(p.within_world());
    p.velocity.y = i64::MIN;
    assert!(!p.within_world());
}

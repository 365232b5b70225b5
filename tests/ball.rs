use breakout::ball::{launch_ball, reset_ball, resolve_collisions, spawn_ball, update_ball, RESET_MARGIN};
use breakout::components::{Ball, BallCollider, BallState, Brick, ColliderKind, FlyingBall, Rgb, StationaryBall, Wall};
use breakout::config::BreakoutConfig;
use breakout::geometry::{BoundingBox, Vector, Velocity};
use breakout::paddle::spawn_paddle;

fn flying(x: i64, y: i64, vx: i64, vy: i64, radius: i64) -> Ball {
    Ball {
        position: Vector::new(x, y),
        size: BoundingBox(Vector::new(2 * radius, 2 * radius)),
        velocity: Velocity(Vector::new(vx, vy)),
        state: BallState::Flying(FlyingBall),
    }
}

fn collider(x: i64, y: i64, w: i64, h: i64, kind: ColliderKind) -> BallCollider {
    BallCollider {
        position: Vector::new(x, y),
        size: BoundingBox(Vector::new(w, h)),
        velocity: Velocity(Vector::zero()),
        kind,
        color: Rgb::new(50, 50, 50),
    }
}

fn config_with_speed(speed: i64) -> BreakoutConfig {
    let mut cfg = BreakoutConfig::default();
    cfg.ball_radius = 7;
    cfg.ball_base_speed = speed;
    cfg
}

#[test]
fn ball_bounces_off_left_wall() {
    // A ball flying left at (-300, 300) meets the right face of a wall at
    // x = -215: the horizontal component is mirrored and the ball is set
    // against the wall.
    let cfg = config_with_speed(425);
    let mut b = flying(-205, 0, -300, 300, 7);
    let walls = vec![collider(-215, 0, 10, 600, ColliderKind::Wall(Wall))];
    let (kept, destroyed) = resolve_collisions(&mut b, &walls, &cfg);
    assert_eq!(b.velocity.0, Vector::new(300, 300));
    assert_eq!(b.position, Vector::new(-203, 0));
    // the ball's edge meets the wall's face
    assert_eq!(b.position.x - 7, -215 + 5);
    assert_eq!(kept, walls);
    assert_eq!(destroyed, 0);
}

#[test]
fn wall_bounce_keeps_base_speed() {
    let s: i64 = 55_000;
    let cfg = config_with_speed(s);
    let mut b = flying(-205, 0, -38_890, 38_890, 7);
    let walls = vec![collider(-215, 0, 10, 600, ColliderKind::Wall(Wall))];
    resolve_collisions(&mut b, &walls, &cfg);
    let v = b.velocity.0;
    assert!(v.x > 0 && v.y > 0);
    assert!(v.x * v.x + v.y * v.y <= s * s);
    assert!((v.x + 1) * (v.x + 1) + (v.y + 1) * (v.y + 1) > (s - 1) * (s - 1));
}

#[test]
fn ball_bounces_down_off_top_wall() {
    let cfg = config_with_speed(500);
    let mut b = flying(0, 292, 0, 500, 7);
    let top = vec![collider(0, 300, 430, 10, ColliderKind::Wall(Wall))];
    resolve_collisions(&mut b, &top, &cfg);
    assert_eq!(b.velocity.0, Vector::new(0, -500));
    assert_eq!(b.position, Vector::new(0, 300 - 12));
}

#[test]
fn brick_hit_is_destroyed_and_counted() {
    let cfg = config_with_speed(500);
    let mut b = flying(0, 95, 0, 500, 7);
    let cs = vec![
        collider(0, 110, 40, 20, ColliderKind::Brick(Brick)),
        collider(100, 110, 40, 20, ColliderKind::Brick(Brick)),
    ];
    let (kept, destroyed) = resolve_collisions(&mut b, &cs, &cfg);
    assert_eq!(destroyed, 1);
    assert_eq!(kept, vec![cs[1]]);
    assert_eq!(b.velocity.0, Vector::new(0, -500));
}

#[test]
fn two_overlapping_bricks_are_both_destroyed_once() {
    let cfg = config_with_speed(500);
    // the ball overlaps two bricks, and still overlaps the second once set
    // below the first
    let mut b = flying(20, 95, 0, 500, 7);
    let cs = vec![
        collider(0, 110, 40, 20, ColliderKind::Brick(Brick)),
        collider(40, 104, 40, 20, ColliderKind::Brick(Brick)),
        collider(-215, 0, 10, 600, ColliderKind::Wall(Wall)),
    ];
    let (kept, destroyed) = resolve_collisions(&mut b, &cs, &cfg);
    assert_eq!(destroyed, 2);
    assert_eq!(kept, vec![cs[2]]);
}

#[test]
fn missed_ball_meets_nothing() {
    let cfg = config_with_speed(500);
    let mut b = flying(0, 0, 100, 100, 7);
    let cs = vec![collider(0, 110, 40, 20, ColliderKind::Brick(Brick))];
    let (kept, destroyed) = resolve_collisions(&mut b, &cs, &cfg);
    assert_eq!(destroyed, 0);
    assert_eq!(kept, cs);
    assert_eq!(b.velocity.0, Vector::new(100, 100));
}

#[test]
fn moving_paddle_bends_the_rebound() {
    let cfg = config_with_speed(500);
    let mut b = flying(0, 10, 0, -500, 7);
    let mut paddle = collider(0, 0, 80, 10, ColliderKind::Wall(Wall));
    paddle.velocity = Velocity(Vector::new(400, 0));
    let (_, _) = resolve_collisions(&mut b, &vec![paddle], &cfg);
    // (0, 500) + (500, 0), rescaled to 500
    assert_eq!(b.velocity.0, Vector::new(353, 353));
}

#[test]
fn launch_from_moving_paddle() {
    // the paddle moves right at (200, 0): the ball leaves along (200, 200)
    let cfg = config_with_speed(550);
    let mut b = spawn_ball(&cfg);
    launch_ball(&mut b, true, Vector::new(200, 0), &cfg);
    assert_eq!(b.state, BallState::Flying(FlyingBall));
    assert_eq!(b.velocity.0, Vector::new(388, 388));
}

#[test]
fn launch_from_paddle_moving_left() {
    let cfg = config_with_speed(550);
    let mut b = spawn_ball(&cfg);
    launch_ball(&mut b, true, Vector::new(-400, 0), &cfg);
    assert_eq!(b.velocity.0, Vector::new(-388, 388));
}

#[test]
fn launch_from_resting_paddle_goes_straight_up() {
    let cfg = config_with_speed(550);
    let mut b = spawn_ball(&cfg);
    launch_ball(&mut b, true, Vector::zero(), &cfg);
    assert_eq!(b.velocity.0, Vector::new(0, 550));
}

#[test]
fn launch_without_press_does_nothing() {
    let cfg = config_with_speed(550);
    let mut b = spawn_ball(&cfg);
    let before = b;
    launch_ball(&mut b, false, Vector::new(200, 0), &cfg);
    assert_eq!(b, before);
    assert_eq!(b.state, BallState::FollowingPaddle(StationaryBall));
}

#[test]
fn launch_while_flying_is_a_no_op() {
    let cfg = config_with_speed(550);
    let mut b = flying(10, 20, -30, 40, 7);
    let before = b;
    launch_ball(&mut b, true, Vector::new(200, 0), &cfg);
    assert_eq!(b, before);
}

#[test]
fn escaped_ball_is_reset() {
    let cfg = BreakoutConfig::default();
    let below = -(cfg.window_height / 2) - RESET_MARGIN - 1;
    let mut b = flying(0, below, 100, -100, 700);
    reset_ball(&mut b, &cfg);
    assert_eq!(b.state, BallState::FollowingPaddle(StationaryBall));
    assert_eq!(b.velocity.0, Vector::zero());
    assert_eq!(b.position, Vector::new(0, below));
}

#[test]
fn ball_at_the_margin_is_not_reset() {
    let cfg = BreakoutConfig::default();
    let right = cfg.window_width / 2 + RESET_MARGIN;
    let mut b = flying(right, 0, 100, -100, 700);
    let before = b;
    reset_ball(&mut b, &cfg);
    assert_eq!(b, before);
    let mut b = flying(right + 1, 0, 100, -100, 700);
    reset_ball(&mut b, &cfg);
    assert_eq!(b.state, BallState::FollowingPaddle(StationaryBall));
}

#[test]
fn riding_ball_follows_and_stays_in_window() {
    let cfg = BreakoutConfig::default();
    let mut paddle = spawn_paddle(&cfg);
    paddle.position.x = 1234;
    let mut b = spawn_ball(&cfg);
    let mut cs: Vec<BallCollider> = Vec::new();
    let destroyed = update_ball(&mut b, &paddle, &mut cs, &cfg);
    assert_eq!(destroyed, 0);
    assert_eq!(b.position.x, 1234);
    assert_eq!(
        b.position.y,
        paddle.position.y + cfg.paddle_size.y / 2 + cfg.ball_y_offset + cfg.ball_radius
    );
}

#[test]
fn flying_ball_is_clamped_to_the_window() {
    let cfg = BreakoutConfig::default();
    let paddle = spawn_paddle(&cfg);
    let mut b = flying(cfg.window_width, cfg.window_height, 100, 100, cfg.ball_radius);
    let mut cs: Vec<BallCollider> = Vec::new();
    update_ball(&mut b, &paddle, &mut cs, &cfg);
    assert_eq!(b.position.x, cfg.window_width / 2 - cfg.ball_radius);
    assert_eq!(b.position.y, cfg.window_height / 2 - cfg.ball_radius);
}

#[test]
fn opposite_directions_cancel_to_rest() {
    // the reflected direction and the collider's cancel: the ball stops
    // instead of taking an undefined direction
    let cfg = config_with_speed(500);
    let mut b = flying(0, 0, 500, 0, 7);
    let mut c = collider(10, 0, 10, 100, ColliderKind::Wall(Wall));
    c.velocity = Velocity(Vector::new(400, 0));
    resolve_collisions(&mut b, &vec![c], &cfg);
    assert_eq!(b.velocity.0, Vector::zero());
    assert_eq!(b.position, Vector::new(-2, 0));
}

#[test]
fn default_launch_is_within_a_thousandth_of_base_speed() {
    let cfg = BreakoutConfig::default();
    let mut b = spawn_ball(&cfg);
    launch_ball(&mut b, true, Vector::new(cfg.paddle_base_speed, 0), &cfg);
    let v = b.velocity.0;
    assert_eq!(v, Vector::new(38_890, 38_890));
    let s = cfg.ball_base_speed;
    assert!(1_000_000 * (v.x * v.x + v.y * v.y) >= 998_001 * s * s);
}

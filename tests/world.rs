use breakout::brick::{draw_cells, layout_wave, BrickRespawn};
use breakout::components::{BallState, ColliderKind, FlyingBall, Rgb, StationaryBall};
use breakout::config::{BreakoutConfig, SUBPIXELS};
use breakout::geometry::Vector;
use breakout::paddle::{contain_paddle, control_paddle, spawn_paddle};
use breakout::timer::OneShotTimer;
use breakout::wall::spawn_walls;
use breakout::world::{TickInput, World};

fn idle(delta: u64) -> TickInput {
    TickInput { right: false, left: false, launch: false, delta }
}

fn bricks(w: &World) -> usize {
    w.colliders.iter().filter(|c| matches!(c.kind, ColliderKind::Brick(_))).count()
}

fn paddle_inside(w: &World) -> bool {
    let cfg = &w.config;
    let x = w.paddle.position.x;
    -cfg.window_width <= 2 * x - cfg.paddle_size.x && 2 * x + cfg.paddle_size.x <= cfg.window_width
}

fn ball_inside(w: &World) -> bool {
    let cfg = &w.config;
    let p = w.ball.position;
    -(cfg.window_width / 2) + cfg.ball_radius <= p.x
        && p.x <= cfg.window_width / 2 - cfg.ball_radius
        && p.y <= cfg.window_height / 2 - cfg.ball_radius
}

#[test]
fn default_config_values() {
    let cfg = BreakoutConfig::default();
    assert_eq!(cfg.window_width, 430 * SUBPIXELS);
    assert_eq!(cfg.window_height, 600 * SUBPIXELS);
    assert_eq!(cfg.brick_area_rows * cfg.brick_area_cols, 72);
    assert_eq!(cfg.brick_colors.len(), 37);
    assert_eq!(cfg.startup_score, 0);
    assert_eq!(cfg.score_brick, 1);
}

#[test]
fn new_world_spawns_paddle_ball_and_walls() {
    let cfg = BreakoutConfig::default();
    let w = World::new(cfg.clone());
    assert_eq!(w.paddle.position, Vector::new(0, -30_000 + 3_000));
    assert_eq!(w.ball.position, Vector::new(0, -30_000 + 500));
    assert_eq!(w.ball.state, BallState::FollowingPaddle(StationaryBall));
    assert_eq!(w.colliders.len(), 3);
    assert_eq!(bricks(&w), 0);
    assert_eq!(w.score.0, 0);
    assert!(w.respawn.immediate_spawn);
}

#[test]
fn walls_frame_the_window() {
    let cfg = BreakoutConfig::default();
    let walls = spawn_walls(&cfg);
    assert_eq!(walls[0].position, Vector::new(-21_500, 0));
    assert_eq!(walls[1].position, Vector::new(21_500, 0));
    assert_eq!(walls[2].position, Vector::new(0, 30_000));
    assert_eq!(walls[0].size.0, Vector::new(1_000, 60_000));
    assert_eq!(walls[2].size.0, Vector::new(43_000, 1_000));
}

#[test]
fn first_tick_spawns_a_wave() {
    let mut cfg = BreakoutConfig::default();
    cfg.brick_spawn_numerator = 1;
    cfg.brick_spawn_denominator = 1;
    let mut w = World::new(cfg);
    let mut rng = rand::thread_rng();
    w.tick(idle(16_667), &mut rng);
    assert_eq!(bricks(&w), 72);
    assert!(!w.respawn.immediate_spawn);
    assert!(w.respawn.timer.paused);
}

#[test]
fn no_wave_while_a_brick_stands() {
    let mut cfg = BreakoutConfig::default();
    cfg.brick_spawn_numerator = 1;
    cfg.brick_spawn_denominator = 1;
    let mut w = World::new(cfg);
    let mut rng = rand::thread_rng();
    w.tick(idle(16_667), &mut rng);
    let before = bricks(&w);
    for _ in 0..200 {
        w.tick(idle(100_000), &mut rng);
        assert!(bricks(&w) <= before);
    }
    assert_eq!(bricks(&w), before);
}

#[test]
fn wave_after_delay_on_empty_field() {
    // An empty field, a one-second timer and a tick of one and a half
    // seconds: exactly one wave.
    let mut r = BrickRespawn::new(1_000_000);
    assert!(r.update(true, 16_667));
    assert!(!r.update(true, 999_999));
    let mut r = BrickRespawn { immediate_spawn: false, timer: OneShotTimer::new_paused(1_000_000) };
    assert!(r.update(true, 1_500_000));
    assert!(r.timer.paused);
    assert_eq!(r.timer.elapsed, 0);
    assert!(!r.update(false, 1_500_000));
}

#[test]
fn timer_waits_for_an_empty_field() {
    let mut r = BrickRespawn { immediate_spawn: false, timer: OneShotTimer::new_paused(1_000_000) };
    assert!(!r.update(false, 5_000_000));
    assert!(!r.update(true, 600_000));
    assert!(r.update(true, 400_000));
}

#[test]
fn wave_tick_in_world_spawns_once() {
    let mut cfg = BreakoutConfig::default();
    cfg.brick_spawn_numerator = 1;
    cfg.brick_spawn_denominator = 1;
    cfg.brick_area_rows = 2;
    cfg.brick_area_cols = 3;
    let mut w = World::new(cfg);
    w.respawn.immediate_spawn = false;
    let mut rng = rand::thread_rng();
    w.tick(idle(1_500_000), &mut rng);
    assert_eq!(bricks(&w), 6);
    w.tick(idle(1_500_000), &mut rng);
    assert_eq!(bricks(&w), 6);
}

#[test]
fn cells_follow_the_probability_extremes() {
    let mut cfg = BreakoutConfig::default();
    let mut rng = rand::thread_rng();
    cfg.brick_spawn_numerator = 0;
    let cells = draw_cells(&cfg, &mut rng);
    assert_eq!(cells.len(), 72);
    assert!(cells.iter().all(|c| c.is_none()));
    cfg.brick_spawn_numerator = 5;
    cfg.brick_spawn_denominator = 5;
    let cells = draw_cells(&cfg, &mut rng);
    assert_eq!(cells.len(), 72);
    for c in cells.iter() {
        assert!(cfg.brick_colors.contains(&c.unwrap()));
    }
}

#[test]
fn cells_with_empty_palette_are_white() {
    let mut cfg = BreakoutConfig::default();
    cfg.brick_spawn_numerator = 1;
    cfg.brick_spawn_denominator = 1;
    cfg.brick_colors = Vec::new();
    let mut rng = rand::thread_rng();
    let cells = draw_cells(&cfg, &mut rng);
    assert!(cells.iter().all(|c| *c == Some(Rgb::new(100, 100, 100))));
}

#[test]
fn typical_wave_fills_some_cells() {
    let cfg = BreakoutConfig::default();
    let mut rng = rand::thread_rng();
    let mut total = 0;
    for _ in 0..50 {
        let cells = draw_cells(&cfg, &mut rng);
        assert_eq!(cells.len(), 72);
        total += cells.iter().filter(|c| c.is_some()).count();
    }
    // one in five of 3600 cells, far from both ends
    assert!(total > 400 && total < 1100);
}

#[test]
fn wave_layout_is_a_centred_grid() {
    let mut cfg = BreakoutConfig::default();
    cfg.brick_area_rows = 2;
    cfg.brick_area_cols = 3;
    let red = Rgb::new(100, 0, 0);
    let cells = vec![Some(red), None, None, Some(red), None, Some(red)];
    let wave = layout_wave(&cfg, &cells);
    assert_eq!(wave.len(), 3);
    // 3 columns of 4000 wide, 2 rows of 2000 high, raised by 10000
    assert_eq!(wave[0].position, Vector::new(-4_000, 9_000));
    assert_eq!(wave[1].position, Vector::new(0, 11_000));
    assert_eq!(wave[2].position, Vector::new(4_000, 11_000));
    assert!(wave.iter().all(|b| matches!(b.kind, ColliderKind::Brick(_))));
    assert_eq!(wave[0].size.0, cfg.brick_size);
}

#[test]
fn paddle_control_right_wins() {
    let cfg = BreakoutConfig::default();
    let mut p = spawn_paddle(&cfg);
    control_paddle(&mut p, true, true, &cfg);
    assert_eq!(p.velocity.0.x, cfg.paddle_base_speed);
    control_paddle(&mut p, false, true, &cfg);
    assert_eq!(p.velocity.0.x, -cfg.paddle_base_speed);
    control_paddle(&mut p, false, false, &cfg);
    assert_eq!(p.velocity.0.x, 0);
}

#[test]
fn paddle_is_kept_off_the_walls() {
    let cfg = BreakoutConfig::default();
    let walls = spawn_walls(&cfg);
    let mut p = spawn_paddle(&cfg);
    p.position.x = 18_000;
    p.velocity.0.x = cfg.paddle_base_speed;
    contain_paddle(&mut p, &walls, &cfg);
    // the right wall's face is at 21500 - 500; the paddle is 8000 wide
    assert_eq!(p.position.x, 21_000 - 4_000);
    assert_eq!(p.velocity.0, Vector::zero());
    let mut p = spawn_paddle(&cfg);
    p.position.x = -99_000;
    contain_paddle(&mut p, &walls, &cfg);
    assert_eq!(p.position.x, -21_000 + 4_000);
}

#[test]
fn paddle_and_ball_stay_in_the_window() {
    let mut w = World::new(BreakoutConfig::default());
    let mut rng = rand::thread_rng();
    for i in 0..3000u64 {
        let input = TickInput {
            right: (i / 40) % 3 == 0,
            left: (i / 25) % 2 == 0,
            launch: i % 97 == 0,
            delta: 16_667,
        };
        w.tick(input, &mut rng);
        assert!(paddle_inside(&w));
        assert!(ball_inside(&w));
        assert!(w.score.0 >= 0);
    }
}

#[test]
fn score_grows_by_score_brick_per_brick() {
    let mut cfg = BreakoutConfig::default();
    cfg.brick_spawn_numerator = 1;
    cfg.brick_spawn_denominator = 1;
    cfg.score_brick = 7;
    let mut w = World::new(cfg);
    let mut rng = rand::thread_rng();
    let mut last_bricks = 0;
    let mut last_score = w.score.0;
    for i in 0..4000u64 {
        let input = TickInput { right: false, left: false, launch: i % 50 == 0, delta: 16_667 };
        let spawned_before = bricks(&w);
        w.tick(input, &mut rng);
        let now = bricks(&w);
        if i > 0 && now <= spawned_before {
            assert_eq!(w.score.0 - last_score, 7 * (spawned_before - now) as i64);
        }
        last_bricks = now;
        last_score = w.score.0;
    }
    assert!(last_bricks <= 72);
}

#[test]
fn escaped_ball_returns_to_the_paddle_in_a_tick() {
    let mut w = World::new(BreakoutConfig::default());
    w.ball.state = BallState::Flying(FlyingBall);
    w.ball.velocity.0 = Vector::new(0, -55_000);
    w.ball.position = Vector::new(0, -30_000 - 20_001);
    let mut rng = rand::thread_rng();
    w.tick(idle(16_667), &mut rng);
    assert_eq!(w.ball.state, BallState::FollowingPaddle(StationaryBall));
    assert_eq!(w.ball.velocity.0, Vector::zero());
    assert!(ball_inside(&w));
}

#[test]
fn advance_places_the_drawn_cells() {
    let mut cfg = BreakoutConfig::default();
    cfg.brick_area_rows = 2;
    cfg.brick_area_cols = 2;
    let mut w = World::new(cfg);
    let blue = Rgb::new(0, 0, 100);
    let cells = vec![None, Some(blue), Some(blue), None];
    w.advance(idle(16_667), &cells);
    assert_eq!(bricks(&w), 2);
    assert_eq!(w.colliders.len(), 5);
    assert_eq!(w.colliders[3].position, Vector::new(-2_000, 11_000));
    assert_eq!(w.colliders[4].position, Vector::new(2_000, 9_000));
    assert_eq!(w.colliders[4].color, blue);
    // no second wave while those bricks stand
    w.advance(idle(5_000_000), &cells);
    assert_eq!(bricks(&w), 2);
}

#[test]
fn odd_paddle_stays_inside_without_walls() {
    let mut cfg = BreakoutConfig::default();
    cfg.wall_thickness = 0;
    cfg.paddle_size.x = 8_001;
    let walls = spawn_walls(&cfg);
    let mut p = spawn_paddle(&cfg);
    p.position.x = -99_000;
    contain_paddle(&mut p, &walls, &cfg);
    // left edge at -17499 - 4000.5 = -21499.5, inside the edge at -21500
    assert_eq!(p.position.x, -17_499);
    assert!(2 * p.position.x - 8_001 >= -43_000);
    p.position.x = 99_000;
    contain_paddle(&mut p, &walls, &cfg);
    assert_eq!(p.position.x, 17_499);
    assert!(2 * p.position.x + 8_001 <= 43_000);
}

#[test]
fn paddle_as_wide_as_an_odd_window_is_centred() {
    let mut cfg = BreakoutConfig::default();
    cfg.window_width = 43_001;
    cfg.paddle_size.x = 43_001;
    let walls = spawn_walls(&cfg);
    let mut p = spawn_paddle(&cfg);
    p.position.x = 500;
    contain_paddle(&mut p, &walls, &cfg);
    assert_eq!(p.position.x, 0);
}

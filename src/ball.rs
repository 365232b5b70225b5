//! The ball: it rides on the paddle until launched, bounces off colliders,
//! breaks bricks, and returns to the paddle when it leaves the play area.

use vstd::prelude::*;
use crate::components::{Ball, BallCollider, BallState, ColliderKind, FlyingBall, StationaryBall};
use crate::config::{BreakoutConfig, SUBPIXELS};
use crate::geometry::{
    clamp, clamp_spec, collide, collision_side, BoundingBox, Collision, Vector, Velocity,
};
use crate::paddle::{reach, POSITION_LIMIT};
use crate::steering::{abs, scale_to, scale_to_speed, SPEED_LIMIT};

verus! {

/// How far beyond the window a ball may go before it is taken back.
pub const RESET_MARGIN: i64 = 200 * SUBPIXELS;

/// The ball as spawned: at rest on its state of riding the paddle.
pub open spec fn ball_spawn_spec(cfg: BreakoutConfig) -> Ball {
    Ball {
        position: Vector { x: 0, y: (-(cfg.window_height / 2) + cfg.ball_y_offset) as i64 },
        size: BoundingBox(Vector { x: (2 * cfg.ball_radius) as i64, y: (2 * cfg.ball_radius) as i64 }),
        velocity: Velocity(Vector { x: 0, y: 0 }),
        state: BallState::FollowingPaddle(StationaryBall),
    }
}

pub fn spawn_ball(cfg: &BreakoutConfig) -> (r: Ball)
    requires
        cfg.valid(),
    ensures
        r == ball_spawn_spec(*cfg),
{
    let d = 2 * cfg.ball_radius;
    Ball {
        position: Vector { x: 0, y: -(cfg.window_height / 2) + cfg.ball_y_offset },
        size: BoundingBox(Vector { x: d, y: d }),
        velocity: Velocity(Vector { x: 0, y: 0 }),
        state: BallState::FollowingPaddle(StationaryBall),
    }
}

/// The ball's size never changes, its position stays within the range on
/// which a tick is defined, it is never faster than its base speed, and it
/// is at rest while it rides on the paddle.
pub open spec fn ball_in_play(b: Ball, cfg: BreakoutConfig) -> bool {
    &&& b.size.0.x == 2 * cfg.ball_radius
    &&& b.size.0.y == 2 * cfg.ball_radius
    &&& -POSITION_LIMIT <= b.position.x <= POSITION_LIMIT
    &&& -POSITION_LIMIT <= b.position.y <= POSITION_LIMIT
    &&& b.velocity.0.x * b.velocity.0.x + b.velocity.0.y * b.velocity.0.y <= cfg.ball_base_speed
        * cfg.ball_base_speed
    &&& (b.state is FollowingPaddle ==> b.velocity.0.is_zero())
}

/// Height of the centre of a ball riding on a paddle whose centre is at
/// height `paddle_y`.
pub open spec fn riding_height(cfg: BreakoutConfig, paddle_y: int) -> int {
    paddle_y + cfg.paddle_size.y / 2 + cfg.ball_y_offset + cfg.ball_radius
}

/// A ball riding on the paddle sits on top of it; a flying ball is left
/// alone.
pub open spec fn follow_spec(b: Ball, paddle: BallCollider, cfg: BreakoutConfig) -> Ball {
    if b.state is FollowingPaddle {
        Ball {
            position: Vector {
                x: paddle.position.x,
                y: riding_height(cfg, paddle.position.y as int) as i64,
            },
            ..b
        }
    } else {
        b
    }
}

pub fn follow_paddle(b: &mut Ball, paddle: &BallCollider, cfg: &BreakoutConfig)
    requires
        cfg.valid(),
        -POSITION_LIMIT <= paddle.position.y <= POSITION_LIMIT,
    ensures
        *final(b) == follow_spec(*old(b), *paddle, *cfg),
{
    if let BallState::FollowingPaddle(_) = b.state {
        b.position.x = paddle.position.x;
        b.position.y = paddle.position.y + cfg.paddle_size.y / 2 + cfg.ball_y_offset
            + cfg.ball_radius;
    }
}

/// Direction of a launch: along the paddle's motion and as much upward, or
/// straight up from a paddle at rest.
pub open spec fn launch_direction(paddle_vx: int) -> (int, int) {
    if paddle_vx != 0 {
        (paddle_vx, abs(paddle_vx))
    } else {
        (0, 1)
    }
}

/// A fresh launch press sends a riding ball flying at its base speed; it
/// changes nothing otherwise.
pub open spec fn launch_spec(b: Ball, pressed: bool, paddle_vx: int, cfg: BreakoutConfig) -> Ball {
    if pressed && b.state is FollowingPaddle {
        let (dx, dy) = launch_direction(paddle_vx);
        let (vx, vy) = scale_to(dx, dy, cfg.ball_base_speed as int);
        Ball {
            velocity: Velocity(Vector { x: vx as i64, y: vy as i64 }),
            state: BallState::Flying(FlyingBall),
            ..b
        }
    } else {
        b
    }
}

pub fn launch_ball(b: &mut Ball, pressed: bool, paddle_velocity: Vector, cfg: &BreakoutConfig)
    requires
        cfg.valid(),
        -SPEED_LIMIT <= paddle_velocity.x <= SPEED_LIMIT,
    ensures
        *final(b) == launch_spec(*old(b), pressed, paddle_velocity.x as int, *cfg),
        final(b).velocity.0.x * final(b).velocity.0.x + final(b).velocity.0.y * final(b).velocity.0.y
            <= cfg.ball_base_speed * cfg.ball_base_speed || final(b).velocity == old(b).velocity,
        pressed && old(b).state is FollowingPaddle ==> final(b).velocity.0.y >= 0,
{
    if pressed {
        if let BallState::FollowingPaddle(_) = b.state {
            let vx = paddle_velocity.x;
            let dir = if vx != 0 {
                Vector { x: vx, y: if vx < 0 { -vx } else { vx } }
            } else {
                Vector { x: 0, y: 1 }
            };
            let v = scale_to_speed(dir, cfg.ball_base_speed);
            proof {
                if cfg.ball_base_speed > 0 {
                    crate::steering::lemma_scale_to_keeps_y_nonnegative(
                        dir.x as int,
                        dir.y as int,
                        cfg.ball_base_speed as int,
                    );
                }
            }
            b.velocity = Velocity(v);
            b.state = BallState::Flying(FlyingBall);
        }
    }
}

/// The ball kept within the window's width and below its top edge; the
/// bottom is open.
pub open spec fn clamp_ball(b: Ball, cfg: BreakoutConfig) -> Ball {
    let lo = -(cfg.window_width / 2) + b.size.0.x / 2;
    let hi = cfg.window_width / 2 - b.size.0.x / 2;
    let top = cfg.window_height / 2 - b.size.0.y / 2;
    Ball {
        position: Vector {
            x: clamp_spec(b.position.x as int, lo, hi) as i64,
            y: if b.position.y > top {
                top as i64
            } else {
                b.position.y
            },
        },
        ..b
    }
}

fn clamp_ball_exec(b: &mut Ball, cfg: &BreakoutConfig)
    requires
        cfg.valid(),
        ball_in_play(*old(b), *cfg),
    ensures
        *final(b) == clamp_ball(*old(b), *cfg),
{
    let lo = -(cfg.window_width / 2) + b.size.0.x / 2;
    let hi = cfg.window_width / 2 - b.size.0.x / 2;
    let top = cfg.window_height / 2 - b.size.0.y / 2;
    b.position.x = clamp(b.position.x, lo, hi);
    if b.position.y > top {
        b.position.y = top;
    }
}

/// The ball reflected off collider `c` on `side`: the velocity component
/// across that side negated, and the ball set just beside the collider.
pub open spec fn reflect(b: Ball, c: BallCollider, side: Collision) -> Ball {
    let v = b.velocity.0;
    let p = b.position;
    let gx = reach(c.size.0.x as int, b.size.0.x as int);
    let gy = reach(c.size.0.y as int, b.size.0.y as int);
    match side {
        Collision::Right => Ball {
            velocity: Velocity(Vector { x: -v.x as i64, y: v.y }),
            position: Vector { x: (c.position.x - gx) as i64, y: p.y },
            ..b
        },
        Collision::Left => Ball {
            velocity: Velocity(Vector { x: -v.x as i64, y: v.y }),
            position: Vector { x: (c.position.x + gx) as i64, y: p.y },
            ..b
        },
        Collision::Top => Ball {
            velocity: Velocity(Vector { x: v.x, y: -v.y as i64 }),
            position: Vector { x: p.x, y: (c.position.y - gy) as i64 },
            ..b
        },
        Collision::Bottom => Ball {
            velocity: Velocity(Vector { x: v.x, y: -v.y as i64 }),
            position: Vector { x: p.x, y: (c.position.y + gy) as i64 },
            ..b
        },
        Collision::Inside => b,
    }
}

/// Velocity after a bounce: the sum of the ball's direction and the
/// collider's, each at base speed, rescaled to base speed. A moving paddle
/// thus bends the rebound; a collider at rest leaves the ball's direction.
pub open spec fn rebound(v: Vector, collider_v: Vector, speed: int) -> (int, int) {
    let (ax, ay) = scale_to(v.x as int, v.y as int, speed);
    let (bx, by) = scale_to(collider_v.x as int, collider_v.y as int, speed);
    scale_to(ax + bx, ay + by, speed)
}

/// The ball after meeting collider `c`.
pub open spec fn ball_hits(b: Ball, c: BallCollider, speed: int) -> Ball {
    match collision_side(c.position, c.size.0, b.position, b.size.0) {
        None => b,
        Some(side) => {
            let r = reflect(b, c, side);
            let (vx, vy) = rebound(r.velocity.0, c.velocity.0, speed);
            Ball { velocity: Velocity(Vector { x: vx as i64, y: vy as i64 }), ..r }
        },
    }
}

/// What a pass over the colliders leaves: the ball, the colliders that
/// remain in their order, and how many bricks were destroyed.
pub struct CollisionOutcome {
    pub ball: Ball,
    pub kept: Seq<BallCollider>,
    pub destroyed: nat,
}

/// The ball meets each collider of `cs` in order; a brick that it hits is
/// destroyed and meets it no more.
pub open spec fn collide_all(b: Ball, cs: Seq<BallCollider>, speed: int) -> CollisionOutcome
    decreases cs.len(),
{
    if cs.len() == 0 {
        CollisionOutcome { ball: b, kept: Seq::empty(), destroyed: 0 }
    } else {
        let o = collide_all(b, cs.drop_last(), speed);
        let c = cs.last();
        let hit = collision_side(c.position, c.size.0, o.ball.position, o.ball.size.0) is Some;
        let nb = ball_hits(o.ball, c, speed);
        if hit && c.is_brick() {
            CollisionOutcome { ball: nb, kept: o.kept, destroyed: o.destroyed + 1 }
        } else {
            CollisionOutcome { ball: nb, kept: o.kept.push(c), destroyed: o.destroyed }
        }
    }
}

/// A collider that the ball can meet: bounded, and at most as fast as a
/// paddle may go.
pub open spec fn collider_in_play(c: BallCollider) -> bool {
    &&& c.bounded()
    &&& -SPEED_LIMIT <= c.velocity.0.x <= SPEED_LIMIT
    &&& -SPEED_LIMIT <= c.velocity.0.y <= SPEED_LIMIT
}

proof fn lemma_ball_hits_in_play(b: Ball, c: BallCollider, cfg: BreakoutConfig)
    requires
        cfg.valid(),
        ball_in_play(b, cfg),
        b.state is Flying,
        collider_in_play(c),
    ensures
        ball_in_play(ball_hits(b, c, cfg.ball_base_speed as int), cfg),
        ball_hits(b, c, cfg.ball_base_speed as int).state == b.state,
{
    let s = cfg.ball_base_speed as int;
    match collision_side(c.position, c.size.0, b.position, b.size.0) {
        None => {},
        Some(side) => {
            let r = reflect(b, c, side);
            let v = r.velocity.0;
            let bv = b.velocity.0;
            crate::steering::lemma_component_bounds(bv.x as int, bv.y as int, s);
            assert((-bv.x) * (-bv.x) == bv.x * bv.x && (-bv.y) * (-bv.y) == bv.y * bv.y)
                by (nonlinear_arith);
            assert(v.x * v.x + v.y * v.y == bv.x * bv.x + bv.y * bv.y);
            crate::steering::lemma_component_bounds(v.x as int, v.y as int, s);
            let (ax, ay) = scale_to(v.x as int, v.y as int, s);
            let (bx, by) = scale_to(c.velocity.0.x as int, c.velocity.0.y as int, s);
            crate::steering::lemma_scale_to_short(v.x as int, v.y as int, s);
            crate::steering::lemma_scale_to_short(
                c.velocity.0.x as int,
                c.velocity.0.y as int,
                s,
            );
            crate::steering::lemma_component_bounds(ax, ay, s);
            crate::steering::lemma_component_bounds(bx, by, s);
            crate::steering::lemma_scale_to_short(ax + bx, ay + by, s);
            let (fx, fy) = scale_to(ax + bx, ay + by, s);
            crate::steering::lemma_component_bounds(fx, fy, s);
        },
    }
}

fn is_brick_exec(c: &BallCollider) -> (r: bool)
    ensures
        r == c.is_brick(),
{
    if let ColliderKind::Brick(_) = c.kind {
        true
    } else {
        false
    }
}

/// The ball meets one collider; returns whether they touched.
fn ball_meets(b: &mut Ball, c: &BallCollider, cfg: &BreakoutConfig) -> (hit: bool)
    requires
        cfg.valid(),
        ball_in_play(*old(b), *cfg),
        old(b).state is Flying,
        collider_in_play(*c),
    ensures
        *final(b) == ball_hits(*old(b), *c, cfg.ball_base_speed as int),
        hit == collision_side(c.position, c.size.0, old(b).position, old(b).size.0) is Some,
        ball_in_play(*final(b), *cfg),
        final(b).state == old(b).state,
{
    proof {
        crate::steering::lemma_component_bounds(
            b.velocity.0.x as int,
            b.velocity.0.y as int,
            cfg.ball_base_speed as int,
        );
        lemma_ball_hits_in_play(*b, *c, *cfg);
    }
    let ghost b0 = *b;
    let side = collide(c.position, c.size.0, b.position, b.size.0);
    match side {
        None => false,
        Some(side) => {
            let gx = (c.size.0.x + b.size.0.x + 1) / 2;
            let gy = (c.size.0.y + b.size.0.y + 1) / 2;
            match side {
                Collision::Right => {
                    b.velocity.0.x = -b.velocity.0.x;
                    b.position.x = c.position.x - gx;
                },
                Collision::Left => {
                    b.velocity.0.x = -b.velocity.0.x;
                    b.position.x = c.position.x + gx;
                },
                Collision::Top => {
                    b.velocity.0.y = -b.velocity.0.y;
                    b.position.y = c.position.y - gy;
                },
                Collision::Bottom => {
                    b.velocity.0.y = -b.velocity.0.y;
                    b.position.y = c.position.y + gy;
                },
                Collision::Inside => {},
            }
            assert(*b == reflect(b0, *c, side));
            let a = scale_to_speed(b.velocity.0, cfg.ball_base_speed);
            let cv = scale_to_speed(c.velocity.0, cfg.ball_base_speed);
            proof {
                crate::steering::lemma_component_bounds(
                    a.x as int,
                    a.y as int,
                    cfg.ball_base_speed as int,
                );
                crate::steering::lemma_component_bounds(
                    cv.x as int,
                    cv.y as int,
                    cfg.ball_base_speed as int,
                );
            }
            let u = Vector { x: a.x + cv.x, y: a.y + cv.y };
            let v = scale_to_speed(u, cfg.ball_base_speed);
            b.velocity = Velocity(v);
            true
        },
    }
}

/// Resolves the collisions of a flying ball with each collider of `cs` in
/// order: returns the colliders that remain and the number of bricks
/// destroyed.
pub fn resolve_collisions(b: &mut Ball, cs: &Vec<BallCollider>, cfg: &BreakoutConfig) -> (r: (
    Vec<BallCollider>,
    usize,
))
    requires
        cfg.valid(),
        ball_in_play(*old(b), *cfg),
        old(b).state is Flying,
        forall|i: int| 0 <= i < cs@.len() ==> collider_in_play(#[trigger] cs@[i]),
    ensures
        *final(b) == collide_all(*old(b), cs@, cfg.ball_base_speed as int).ball,
        r.0@ == collide_all(*old(b), cs@, cfg.ball_base_speed as int).kept,
        r.1 == collide_all(*old(b), cs@, cfg.ball_base_speed as int).destroyed,
        ball_in_play(*final(b), *cfg),
        final(b).state == old(b).state,
{
    let ghost b0 = *b;
    let ghost s = cfg.ball_base_speed as int;
    let mut kept: Vec<BallCollider> = Vec::new();
    let mut destroyed: usize = 0;
    let mut i: usize = 0;
    while i < cs.len()
        invariant
            cfg.valid(),
            s == cfg.ball_base_speed,
            0 <= i <= cs@.len(),
            forall|j: int| 0 <= j < cs@.len() ==> collider_in_play(#[trigger] cs@[j]),
            *b == collide_all(b0, cs@.take(i as int), s).ball,
            kept@ == collide_all(b0, cs@.take(i as int), s).kept,
            destroyed == collide_all(b0, cs@.take(i as int), s).destroyed,
            destroyed <= i,
            ball_in_play(*b, *cfg),
            b.state == b0.state,
            b0.state is Flying,
        decreases cs@.len() - i,
    {
        proof {
            assert(cs@.take(i as int + 1).drop_last() =~= cs@.take(i as int));
            assert(cs@.take(i as int + 1).last() == cs@[i as int]);
        }
        let c = cs[i];
        let hit = ball_meets(b, &c, cfg);
        if hit && is_brick_exec(&c) {
            destroyed = destroyed + 1;
        } else {
            kept.push(c);
        }
        i = i + 1;
    }
    assert(cs@.take(cs@.len() as int) =~= cs@);
    (kept, destroyed)
}

/// Whether a point lies more than `RESET_MARGIN` beyond the window on some
/// side.
pub open spec fn out_of_bounds(p: Vector, cfg: BreakoutConfig) -> bool {
    ||| p.x < -(cfg.window_width / 2) - RESET_MARGIN
    ||| p.x > cfg.window_width / 2 + RESET_MARGIN
    ||| p.y < -(cfg.window_height / 2) - RESET_MARGIN
    ||| p.y > cfg.window_height / 2 + RESET_MARGIN
}

/// A flying ball out of bounds stops and rides on the paddle again.
pub open spec fn reset_spec(b: Ball, cfg: BreakoutConfig) -> Ball {
    if b.state is Flying && out_of_bounds(b.position, cfg) {
        Ball {
            velocity: Velocity(Vector { x: 0, y: 0 }),
            state: BallState::FollowingPaddle(StationaryBall),
            ..b
        }
    } else {
        b
    }
}

pub fn reset_ball(b: &mut Ball, cfg: &BreakoutConfig)
    requires
        cfg.valid(),
    ensures
        *final(b) == reset_spec(*old(b), *cfg),
{
    if let BallState::Flying(_) = b.state {
        let half_w = cfg.window_width / 2;
        let half_h = cfg.window_height / 2;
        let p = b.position;
        if p.x < -half_w - RESET_MARGIN || p.x > half_w + RESET_MARGIN || p.y < -half_h
            - RESET_MARGIN || p.y > half_h + RESET_MARGIN {
            b.velocity = Velocity(Vector { x: 0, y: 0 });
            b.state = BallState::FollowingPaddle(StationaryBall);
        }
    }
}

/// The ball phase of a tick: a riding ball follows the paddle; a flying
/// ball meets the paddle, then each other collider in order. Either way the
/// ball ends within the window's width and below its top.
pub open spec fn ball_phase_spec(
    b: Ball,
    paddle: BallCollider,
    cs: Seq<BallCollider>,
    cfg: BreakoutConfig,
) -> CollisionOutcome {
    if b.state is FollowingPaddle {
        CollisionOutcome {
            ball: clamp_ball(follow_spec(b, paddle, cfg), cfg),
            kept: cs,
            destroyed: 0,
        }
    } else {
        let s = cfg.ball_base_speed as int;
        let o = collide_all(ball_hits(clamp_ball(b, cfg), paddle, s), cs, s);
        CollisionOutcome { ball: clamp_ball(o.ball, cfg), kept: o.kept, destroyed: o.destroyed }
    }
}

/// The ball's centre lies within the window's width less its radius on each
/// side, and no higher than the window's top less its radius.
pub open spec fn ball_contained(b: Ball, cfg: BreakoutConfig) -> bool {
    &&& -(cfg.window_width / 2) + cfg.ball_radius <= b.position.x <= cfg.window_width / 2
        - cfg.ball_radius
    &&& b.position.y <= cfg.window_height / 2 - cfg.ball_radius
}

/// Lowest height that the ball phase sets a ball to.
pub const BALL_FLOOR: i64 = 0x8000_0000;

/// Runs the ball phase; the colliders that remain replace `cs`, and the
/// number of bricks destroyed is returned.
pub fn update_ball(
    b: &mut Ball,
    paddle: &BallCollider,
    cs: &mut Vec<BallCollider>,
    cfg: &BreakoutConfig,
) -> (destroyed: usize)
    requires
        cfg.valid(),
        ball_in_play(*old(b), *cfg),
        collider_in_play(*paddle),
        -0x2000_0000 <= paddle.position.y <= 0x2000_0000,
        forall|i: int| 0 <= i < old(cs)@.len() ==> collider_in_play(#[trigger] old(cs)@[i]),
    ensures
        *final(b) == ball_phase_spec(*old(b), *paddle, old(cs)@, *cfg).ball,
        final(cs)@ == ball_phase_spec(*old(b), *paddle, old(cs)@, *cfg).kept,
        destroyed == ball_phase_spec(*old(b), *paddle, old(cs)@, *cfg).destroyed,
        destroyed <= old(cs)@.len(),
        ball_in_play(*final(b), *cfg),
        ball_contained(*final(b), *cfg),
        final(b).state == old(b).state,
        final(b).position.y >= old(b).position.y || final(b).position.y >= -BALL_FLOOR,
{
    if let BallState::FollowingPaddle(_) = b.state {
        follow_paddle(b, paddle, cfg);
        clamp_ball_exec(b, cfg);
        0
    } else {
        let ghost b0 = *b;
        clamp_ball_exec(b, cfg);
        ball_meets(b, paddle, cfg);
        let ghost b1 = *b;
        let (kept, destroyed) = resolve_collisions(b, cs, cfg);
        proof {
            lemma_collide_all_floor(b1, cs@, *cfg);
            lemma_collide_all_bricks(b1, cs@, cfg.ball_base_speed as int);
        }
        clamp_ball_exec(b, cfg);
        *cs = kept;
        destroyed
    }
}

/// Meeting colliders never sets the ball lower than `BALL_FLOOR` below the
/// centre, unless it was lower to begin with.
proof fn lemma_collide_all_floor(b: Ball, cs: Seq<BallCollider>, cfg: BreakoutConfig)
    requires
        cfg.valid(),
        0 <= b.size.0.y <= 2 * cfg.ball_radius,
        forall|i: int| 0 <= i < cs.len() ==> collider_in_play(#[trigger] cs[i]),
    ensures
        ({
            let o = collide_all(b, cs, cfg.ball_base_speed as int);
            &&& o.ball.position.y >= b.position.y || o.ball.position.y >= -BALL_FLOOR
            &&& o.ball.size == b.size
        }),
    decreases cs.len(),
{
    if cs.len() > 0 {
        assert(forall|i: int|
            0 <= i < cs.drop_last().len() ==> #[trigger] cs.drop_last()[i] == cs[i]);
        lemma_collide_all_floor(b, cs.drop_last(), cfg);
        assert(collider_in_play(cs[cs.len() - 1]));
    }
}

/// A launch changes the ball only when pressed while the ball rides on the
/// paddle, and then the ball flies; a press while it flies changes nothing,
/// and no launch brings a flying ball back.
pub proof fn lemma_launch_transitions(b: Ball, pressed: bool, paddle_vx: int, cfg: BreakoutConfig)
    ensures
        b.state is Flying ==> launch_spec(b, pressed, paddle_vx, cfg) == b,
        !pressed ==> launch_spec(b, pressed, paddle_vx, cfg) == b,
        pressed && b.state is FollowingPaddle ==> launch_spec(b, pressed, paddle_vx, cfg).state is Flying,
        launch_spec(b, pressed, paddle_vx, cfg).state is FollowingPaddle ==> b.state is FollowingPaddle,
{
}

/// A launch from a moving paddle goes along the paddle's motion and as much
/// upward; from a paddle at rest, straight up. Its speed is the base speed
/// within rounding, and from 4000 units on within a thousandth of it.
pub proof fn lemma_launch_velocity(b: Ball, paddle_vx: int, cfg: BreakoutConfig)
    requires
        cfg.valid(),
        b.state is FollowingPaddle,
        -SPEED_LIMIT <= paddle_vx <= SPEED_LIMIT,
    ensures
        ({
            let v = launch_spec(b, true, paddle_vx, cfg).velocity.0;
            let s = cfg.ball_base_speed as int;
            &&& (v.x as int, v.y as int) == scale_to(
                launch_direction(paddle_vx).0,
                launch_direction(paddle_vx).1,
                s,
            )
            &&& v.x * v.x + v.y * v.y <= s * s
            &&& s >= 4000 ==> 1_000_000 * (v.x * v.x + v.y * v.y) >= 998_001 * (s * s)
        }),
{
    let s = cfg.ball_base_speed as int;
    let (dx, dy) = launch_direction(paddle_vx);
    crate::steering::lemma_scale_to_short(dx, dy, s);
    let (fx, fy) = scale_to(dx, dy, s);
    crate::steering::lemma_component_bounds(fx, fy, s);
    if s >= 4000 {
        crate::steering::lemma_scale_to_near_speed(dx, dy, s);
    }
}

/// Sign of an integer: -1, 0 or 1.
pub open spec fn sign(a: int) -> int {
    if a > 0 {
        1
    } else if a < 0 {
        -1
    } else {
        0
    }
}

/// After a bounce off a collider at rest, the velocity component across the
/// side hit has the opposite sign and the other keeps its sign, and the
/// speed is the base speed within rounding: never above it, above one less
/// than it once one unit is added to each component's magnitude, and, from a
/// base speed of 4000 units on, within a thousandth of it.
pub proof fn lemma_wall_bounce(b: Ball, c: BallCollider, cfg: BreakoutConfig)
    requires
        cfg.valid(),
        ball_in_play(b, cfg),
        cfg.ball_base_speed > 0,
        c.velocity.0.is_zero(),
        !b.velocity.0.is_zero(),
        collision_side(c.position, c.size.0, b.position, b.size.0) is Some,
    ensures
        ({
            let side = collision_side(c.position, c.size.0, b.position, b.size.0);
            let v = ball_hits(b, c, cfg.ball_base_speed as int).velocity.0;
            let s = cfg.ball_base_speed as int;
            &&& (side == Some(Collision::Left) || side == Some(Collision::Right)) && b.velocity.0.x
                != 0 ==> sign(v.x as int) == -sign(b.velocity.0.x as int)
            &&& (side == Some(Collision::Top) || side == Some(Collision::Bottom)) && b.velocity.0.y
                != 0 ==> sign(v.y as int) == -sign(b.velocity.0.y as int)
            &&& side != Some(Collision::Left) && side != Some(Collision::Right) ==> sign(v.x as int)
                == sign(b.velocity.0.x as int)
            &&& side != Some(Collision::Top) && side != Some(Collision::Bottom) ==> sign(v.y as int)
                == sign(b.velocity.0.y as int)
            &&& v.x * v.x + v.y * v.y <= s * s
            &&& s >= 4000 ==> 1_000_000 * (v.x * v.x + v.y * v.y) >= 998_001 * (s * s)
            &&& (abs(v.x as int) + 1) * (abs(v.x as int) + 1) + (abs(v.y as int) + 1) * (abs(
                v.y as int,
            ) + 1) > (s - 1) * (s - 1)
        }),
{
    let s = cfg.ball_base_speed as int;
    let side = collision_side(c.position, c.size.0, b.position, b.size.0).unwrap();
    let r = reflect(b, c, side);
    let bv = b.velocity.0;
    let rv = r.velocity.0;
    crate::steering::lemma_component_bounds(bv.x as int, bv.y as int, s);
    assert((-bv.x) * (-bv.x) == bv.x * bv.x && (-bv.y) * (-bv.y) == bv.y * bv.y)
        by (nonlinear_arith);
    assert(rv.x * rv.x + rv.y * rv.y == bv.x * bv.x + bv.y * bv.y);
    assert(rv.x != 0 || rv.y != 0);
    let (ax, ay) = scale_to(rv.x as int, rv.y as int, s);
    assert(scale_to(c.velocity.0.x as int, c.velocity.0.y as int, s) == (0int, 0int));
    // Signs survive the first rescaling ...
    if rv.x != 0 {
        crate::steering::lemma_scale_to_keeps_sign(rv.x as int, rv.y as int, s);
    } else {
        crate::steering::lemma_scale_to_zero_component(rv.y as int, rv.x as int, s);
        assert(scale_to(rv.y as int, rv.x as int, s).1 == ax);
    }
    if rv.y != 0 {
        assert(scale_to(rv.y as int, rv.x as int, s).0 == ay);
        crate::steering::lemma_scale_to_keeps_sign(rv.y as int, rv.x as int, s);
    } else {
        crate::steering::lemma_scale_to_zero_component(rv.x as int, rv.y as int, s);
    }
    crate::steering::lemma_scale_to_short(rv.x as int, rv.y as int, s);
    assert(ax + 0 == ax && ay + 0 == ay);
    // ... and the second.
    if ax != 0 {
        crate::steering::lemma_scale_to_keeps_sign(ax, ay, s);
    } else {
        crate::steering::lemma_scale_to_zero_component(ay, ax, s);
        assert(scale_to(ay, ax, s).1 == scale_to(ax, ay, s).0);
    }
    if ay != 0 {
        assert(scale_to(ay, ax, s).0 == scale_to(ax, ay, s).1);
        crate::steering::lemma_scale_to_keeps_sign(ay, ax, s);
    } else {
        crate::steering::lemma_scale_to_zero_component(ax, ay, s);
    }
    assert(ax != 0 || ay != 0);
    crate::steering::lemma_scale_to_speed_bounds(ax, ay, s);
    let (fx, fy) = scale_to(ax, ay, s);
    crate::steering::lemma_component_bounds(fx, fy, s);
    if s >= 4000 {
        crate::steering::lemma_scale_to_near_speed(ax, ay, s);
    }
}

/// A flying ball beyond the reset margin stops and rides on the paddle
/// again.
pub proof fn lemma_escaped_ball_resets(b: Ball, cfg: BreakoutConfig)
    requires
        b.state is Flying,
        out_of_bounds(b.position, cfg),
    ensures
        reset_spec(b, cfg).state is FollowingPaddle,
        reset_spec(b, cfg).velocity.0.is_zero(),
        reset_spec(b, cfg).position == b.position,
{
}

/// Each destroyed collider is a brick, counted once: the number destroyed
/// is the number of bricks that no longer stand, and no other collider goes.
pub proof fn lemma_collide_all_bricks(b: Ball, cs: Seq<BallCollider>, speed: int)
    ensures
        collide_all(b, cs, speed).destroyed == count_bricks(cs) - count_bricks(
            collide_all(b, cs, speed).kept,
        ),
        collide_all(b, cs, speed).kept.len() + collide_all(b, cs, speed).destroyed == cs.len(),
    decreases cs.len(),
{
    if cs.len() > 0 {
        lemma_collide_all_bricks(b, cs.drop_last(), speed);
        let o = collide_all(b, cs.drop_last(), speed);
        assert(o.kept.push(cs.last()).drop_last() =~= o.kept);
    }
}

/// The number of bricks among `cs`.
pub open spec fn count_bricks(cs: Seq<BallCollider>) -> nat
    decreases cs.len(),
{
    if cs.len() == 0 {
        0
    } else {
        count_bricks(cs.drop_last()) + if cs.last().is_brick() {
            1nat
        } else {
            0nat
        }
    }
}

/// The colliders that a pass of the ball leaves are among those it met.
pub proof fn lemma_collide_all_subset(b: Ball, cs: Seq<BallCollider>, speed: int)
    ensures
        forall|i: int|
            0 <= i < collide_all(b, cs, speed).kept.len() ==> cs.contains(
                #[trigger] collide_all(b, cs, speed).kept[i],
            ),
    decreases cs.len(),
{
    if cs.len() > 0 {
        lemma_collide_all_subset(b, cs.drop_last(), speed);
        let o = collide_all(b, cs.drop_last(), speed);
        let k = collide_all(b, cs, speed).kept;
        assert forall|i: int| 0 <= i < k.len() implies cs.contains(#[trigger] k[i]) by {
            if i < o.kept.len() {
                assert(k[i] == o.kept[i]);
                let j = choose|j: int| 0 <= j < cs.drop_last().len() && cs.drop_last()[j] == o.kept[i];
                assert(cs[j] == k[i]);
            } else {
                assert(k[i] == cs[cs.len() - 1]);
            }
        }
    }
}

} // verus!

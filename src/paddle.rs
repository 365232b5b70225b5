//! The paddle: spawned once, steered by input, kept inside the walls.

use vstd::prelude::*;
use crate::components::{BallCollider, ColliderKind, Paddle, Rgb};
use crate::config::BreakoutConfig;
use crate::geometry::{
    clamp, clamp_spec, collide, collision_side, BoundingBox, Collision, Vector, Velocity,
};

verus! {

/// Largest coordinate of the paddle or the ball while a tick runs.
pub const POSITION_LIMIT: i64 = 0x1_0000_0000;

/// The paddle as spawned: centred horizontally, `paddle_y_offset` above the
/// bottom of the window, at rest.
pub open spec fn paddle_spawn_spec(cfg: BreakoutConfig) -> BallCollider {
    BallCollider {
        position: Vector { x: 0, y: (-(cfg.window_height / 2) + cfg.paddle_y_offset) as i64 },
        size: BoundingBox(cfg.paddle_size),
        velocity: Velocity(Vector { x: 0, y: 0 }),
        kind: ColliderKind::Paddle(Paddle),
        color: Rgb { r: 25, g: 88, b: 82 },
    }
}

pub fn spawn_paddle(cfg: &BreakoutConfig) -> (r: BallCollider)
    requires
        cfg.valid(),
    ensures
        r == paddle_spawn_spec(*cfg),
{
    BallCollider {
        position: Vector { x: 0, y: -(cfg.window_height / 2) + cfg.paddle_y_offset },
        size: BoundingBox(cfg.paddle_size),
        velocity: Velocity(Vector { x: 0, y: 0 }),
        kind: ColliderKind::Paddle(Paddle),
        color: Rgb { r: 25, g: 88, b: 82 },
    }
}

/// Horizontal paddle speed for the keys held: right wins over left.
pub open spec fn control_speed(cfg: BreakoutConfig, right: bool, left: bool) -> int {
    if right {
        cfg.paddle_base_speed as int
    } else if left {
        -cfg.paddle_base_speed
    } else {
        0
    }
}

/// Sets the paddle's horizontal velocity from the keys held.
pub fn control_paddle(paddle: &mut BallCollider, right: bool, left: bool, cfg: &BreakoutConfig)
    requires
        cfg.valid(),
    ensures
        final(paddle).velocity.0.x == control_speed(*cfg, right, left),
        final(paddle).velocity.0.y == old(paddle).velocity.0.y,
        final(paddle).position == old(paddle).position,
        final(paddle).size == old(paddle).size,
        final(paddle).kind == old(paddle).kind,
        final(paddle).color == old(paddle).color,
{
    let mut x: i64 = 0;
    if right {
        x = cfg.paddle_base_speed;
    } else if left {
        x = -cfg.paddle_base_speed;
    }
    paddle.velocity.0.x = x;
}

/// Least and greatest whole-unit horizontal centre of a box `width` wide
/// that keeps both its edges inside the window: a centre `c` with
/// `-W <= 2c - width` and `2c + width <= W`.
pub open spec fn x_range(cfg: BreakoutConfig, width: int) -> (int, int) {
    (-((cfg.window_width - width) / 2), (cfg.window_width - width) / 2)
}

pub open spec fn with_x(c: BallCollider, x: int) -> BallCollider {
    BallCollider { position: Vector { x: x as i64, ..c.position }, ..c }
}

/// Half the sum of two extents, rounded up: the distance between two
/// centres that leaves the boxes just apart.
pub open spec fn reach(a: int, b: int) -> int {
    (a + b + 1) / 2
}

/// The paddle after meeting one wall: stopped and set beside it when the
/// wall hits its right or left side.
pub open spec fn paddle_wall_step(p: BallCollider, w: BallCollider) -> BallCollider {
    if !w.is_wall() {
        p
    } else {
        match collision_side(w.position, w.size.0, p.position, p.size.0) {
            Some(Collision::Right) => BallCollider {
                velocity: Velocity(Vector { x: 0, y: 0 }),
                ..with_x(p, w.position.x - reach(w.size.0.x as int, p.size.0.x as int))
            },
            Some(Collision::Left) => BallCollider {
                velocity: Velocity(Vector { x: 0, y: 0 }),
                ..with_x(p, w.position.x + reach(w.size.0.x as int, p.size.0.x as int))
            },
            _ => p,
        }
    }
}

/// The paddle after meeting each wall among `cs`, in order.
pub open spec fn paddle_after_walls(p: BallCollider, cs: Seq<BallCollider>) -> BallCollider
    decreases cs.len(),
{
    if cs.len() == 0 {
        p
    } else {
        paddle_wall_step(paddle_after_walls(p, cs.drop_last()), cs.last())
    }
}

/// The paddle's horizontal position limited to the window.
pub open spec fn clamp_paddle(p: BallCollider, cfg: BreakoutConfig) -> BallCollider {
    let (lo, hi) = x_range(cfg, p.size.0.x as int);
    with_x(p, clamp_spec(p.position.x as int, lo, hi))
}

/// Wall containment: the paddle limited to the window, then set beside each
/// wall that it hits, then limited to the window again, so that no wall
/// layout can push it out.
pub open spec fn contain_paddle_spec(
    p: BallCollider,
    cs: Seq<BallCollider>,
    cfg: BreakoutConfig,
) -> BallCollider {
    clamp_paddle(paddle_after_walls(clamp_paddle(p, cfg), cs), cfg)
}

/// The paddle's centre lies in the window's width less half the paddle's
/// on each side: both its edges are inside the window.
pub open spec fn paddle_contained(p: BallCollider, cfg: BreakoutConfig) -> bool {
    &&& -cfg.window_width <= 2 * p.position.x - cfg.paddle_size.x
    &&& 2 * p.position.x + cfg.paddle_size.x <= cfg.window_width
}

pub open spec fn paddle_in_play(p: BallCollider, cfg: BreakoutConfig) -> bool {
    &&& p.size.0 == cfg.paddle_size
    &&& -POSITION_LIMIT <= p.position.x <= POSITION_LIMIT
    &&& -POSITION_LIMIT <= p.position.y <= POSITION_LIMIT
}

proof fn lemma_wall_step_keeps(p: BallCollider, w: BallCollider, cfg: BreakoutConfig)
    requires
        cfg.valid(),
        w.bounded(),
        p.size.0 == cfg.paddle_size,
        -POSITION_LIMIT <= p.position.x <= POSITION_LIMIT,
    ensures
        ({
            let q = paddle_wall_step(p, w);
            &&& q.size == p.size && q.kind == p.kind && q.color == p.color
            &&& q.position.y == p.position.y
            &&& -POSITION_LIMIT <= q.position.x <= POSITION_LIMIT
            &&& q.velocity == p.velocity || q.velocity.0.is_zero()
        }),
{
}

fn paddle_meets_wall(p: &mut BallCollider, w: &BallCollider, cfg: &BreakoutConfig)
    requires
        cfg.valid(),
        w.bounded(),
        old(p).size.0 == cfg.paddle_size,
        -POSITION_LIMIT <= old(p).position.x <= POSITION_LIMIT,
        -POSITION_LIMIT <= old(p).position.y <= POSITION_LIMIT,
    ensures
        *final(p) == paddle_wall_step(*old(p), *w),
{
    if let ColliderKind::Wall(_) = w.kind {
        let side = collide(w.position, w.size.0, p.position, p.size.0);
        let gap = (w.size.0.x + p.size.0.x + 1) / 2;
        match side {
            Some(Collision::Right) => {
                p.velocity = Velocity(Vector { x: 0, y: 0 });
                p.position.x = w.position.x - gap;
            },
            Some(Collision::Left) => {
                p.velocity = Velocity(Vector { x: 0, y: 0 });
                p.position.x = w.position.x + gap;
            },
            _ => {},
        }
    }
}

fn clamp_paddle_exec(p: &mut BallCollider, cfg: &BreakoutConfig)
    requires
        cfg.valid(),
        old(p).size.0 == cfg.paddle_size,
    ensures
        *final(p) == clamp_paddle(*old(p), *cfg),
{
    let hi = (cfg.window_width - p.size.0.x) / 2;
    let lo = -hi;
    p.position.x = clamp(p.position.x, lo, hi);
}

/// Keeps the paddle inside the window and beside the walls among `cs`.
pub fn contain_paddle(p: &mut BallCollider, cs: &Vec<BallCollider>, cfg: &BreakoutConfig)
    requires
        cfg.valid(),
        paddle_in_play(*old(p), *cfg),
        forall|i: int| 0 <= i < cs@.len() ==> (#[trigger] cs@[i]).bounded(),
    ensures
        *final(p) == contain_paddle_spec(*old(p), cs@, *cfg),
        paddle_contained(*final(p), *cfg),
        final(p).position.y == old(p).position.y,
        final(p).size == old(p).size,
        final(p).kind == old(p).kind,
        final(p).color == old(p).color,
        final(p).velocity == old(p).velocity || final(p).velocity.0.is_zero(),
{
    let ghost start = *p;
    clamp_paddle_exec(p, cfg);
    let ghost clamped = *p;
    let mut i: usize = 0;
    while i < cs.len()
        invariant
            cfg.valid(),
            0 <= i <= cs@.len(),
            forall|j: int| 0 <= j < cs@.len() ==> (#[trigger] cs@[j]).bounded(),
            *p == paddle_after_walls(clamped, cs@.take(i as int)),
            p.size == start.size && p.kind == start.kind && p.color == start.color,
            p.position.y == start.position.y,
            paddle_in_play(start, *cfg),
            -POSITION_LIMIT <= p.position.x <= POSITION_LIMIT,
            p.velocity == start.velocity || p.velocity.0.is_zero(),
        decreases cs@.len() - i,
    {
        proof {
            assert(cs@.take(i as int + 1).drop_last() =~= cs@.take(i as int));
            lemma_wall_step_keeps(*p, cs@[i as int], *cfg);
        }
        paddle_meets_wall(p, &cs[i], cfg);
        i = i + 1;
    }
    assert(cs@.take(cs@.len() as int) =~= cs@);
    clamp_paddle_exec(p, cfg);
}

} // verus!

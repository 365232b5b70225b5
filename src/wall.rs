//! The three walls around the play area: left, right and top.

use vstd::prelude::*;
use crate::components::{BallCollider, ColliderKind, Rgb, Wall};
use crate::config::BreakoutConfig;
use crate::geometry::{BoundingBox, Vector, Velocity};

verus! {

pub open spec fn wall_at(x: int, y: int, w: int, h: int) -> BallCollider {
    BallCollider {
        position: Vector { x: x as i64, y: y as i64 },
        size: BoundingBox(Vector { x: w as i64, y: h as i64 }),
        velocity: Velocity(Vector { x: 0, y: 0 }),
        kind: ColliderKind::Wall(Wall),
        color: Rgb { r: 50, g: 50, b: 50 },
    }
}

/// The walls of a session: two upright bars centred on the window's left and
/// right edges, and a bar along its top edge, each twice `wall_thickness`
/// thick.
pub open spec fn walls_spec(cfg: BreakoutConfig) -> Seq<BallCollider> {
    let t = 2 * cfg.wall_thickness;
    seq![
        wall_at(-(cfg.window_width / 2), 0, t, cfg.window_height as int),
        wall_at(cfg.window_width / 2, 0, t, cfg.window_height as int),
        wall_at(0, cfg.window_height / 2, cfg.window_width as int, t),
    ]
}

fn wall(x: i64, y: i64, w: i64, h: i64) -> (r: BallCollider)
    ensures
        r == wall_at(x as int, y as int, w as int, h as int),
{
    BallCollider {
        position: Vector { x, y },
        size: BoundingBox(Vector { x: w, y: h }),
        velocity: Velocity(Vector { x: 0, y: 0 }),
        kind: ColliderKind::Wall(Wall),
        color: Rgb { r: 50, g: 50, b: 50 },
    }
}

/// Builds the walls of a session.
pub fn spawn_walls(cfg: &BreakoutConfig) -> (r: Vec<BallCollider>)
    requires
        cfg.valid(),
    ensures
        r@ == walls_spec(*cfg),
        forall|i: int| 0 <= i < r@.len() ==> (#[trigger] r@[i]).bounded() && r@[i].is_wall(),
{
    let t = 2 * cfg.wall_thickness;
    let half_w = cfg.window_width / 2;
    let half_h = cfg.window_height / 2;
    let left = -half_w;
    let r = vec![
        wall(left, 0, t, cfg.window_height),
        wall(half_w, 0, t, cfg.window_height),
        wall(0, half_h, cfg.window_width, t),
    ];
    assert(r@ =~= walls_spec(*cfg));
    r
}

} // verus!

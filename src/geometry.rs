//! Plain 2D vectors, axis-aligned boxes and the side on which two boxes meet.

use vstd::prelude::*;

verus! {

/// A 2D integer vector: a position in length units, or a velocity in length
/// units per second.
#[derive(Clone, Copy, Debug, PartialEq, Eq, Structural)]
pub struct Vector {
    pub x: i64,
    pub y: i64,
}

impl Vector {
    pub fn new(x: i64, y: i64) -> (r: Vector)
        ensures
            r.x == x,
            r.y == y,
    {
        Vector { x, y }
    }

    pub open spec fn is_zero(&self) -> bool {
        self.x == 0 && self.y == 0
    }

    pub fn zero() -> (r: Vector)
        ensures
            r.x == 0,
            r.y == 0,
    {
        Vector { x: 0, y: 0 }
    }
}

/// Width and height of an axis-aligned box centred on its entity's position.
#[derive(Clone, Copy, Debug, PartialEq, Eq, Structural)]
pub struct BoundingBox(pub Vector);

/// Velocity in length units per second.
#[derive(Clone, Copy, Debug, PartialEq, Eq, Structural)]
pub struct Velocity(pub Vector);

/// The side of the second box that the first box touches.
#[derive(Clone, Copy, Debug, PartialEq, Eq, Structural)]
pub enum Collision {
    Left,
    Right,
    Top,
    Bottom,
    Inside,
}

/// Largest coordinate or size on which the box test is defined.
pub const BOX_LIMIT: i64 = 0x1000_0000_0000;

pub open spec fn within_box_limit(p: Vector, s: Vector) -> bool {
    -BOX_LIMIT <= p.x <= BOX_LIMIT && -BOX_LIMIT <= p.y <= BOX_LIMIT && 0 <= s.x <= BOX_LIMIT
        && 0 <= s.y <= BOX_LIMIT
}

/// How one axis of box `a` (from `a_lo` to `a_hi`) meets the same axis of box
/// `b`, in doubled coordinates: `Some((true, d))` when `a` covers the low end
/// of `b`, `Some((false, d))` when it covers the high end, with `d` the depth,
/// and `None` when neither end alone is covered.
pub open spec fn axis_contact(a_lo: int, a_hi: int, b_lo: int, b_hi: int) -> Option<(bool, int)> {
    if a_lo < b_lo && a_hi > b_lo && a_hi < b_hi {
        Some((true, a_hi - b_lo))
    } else if a_lo > b_lo && a_lo < b_hi && a_hi > b_hi {
        Some((false, b_hi - a_lo))
    } else {
        None
    }
}

/// Whether the open boxes overlap: positions are centres, sizes are full
/// extents.
pub open spec fn boxes_overlap(a_pos: Vector, a_size: Vector, b_pos: Vector, b_size: Vector) -> bool {
    2 * a_pos.x - a_size.x < 2 * b_pos.x + b_size.x && 2 * a_pos.x + a_size.x > 2 * b_pos.x
        - b_size.x && 2 * a_pos.y - a_size.y < 2 * b_pos.y + b_size.y && 2 * a_pos.y + a_size.y
        > 2 * b_pos.y - b_size.y
}

/// The side of box `b` that box `a` hits, if they overlap. A side is taken on
/// the axis where `a` covers one end of `b`; where both axes qualify, the
/// shallower vertical contact wins over a horizontal one of at least its
/// depth. Where neither does, `a` is `Inside`.
pub open spec fn collision_side(a_pos: Vector, a_size: Vector, b_pos: Vector, b_size: Vector) -> Option<
    Collision,
> {
    if !boxes_overlap(a_pos, a_size, b_pos, b_size) {
        None
    } else {
        let xc = axis_contact(
            2 * a_pos.x - a_size.x,
            2 * a_pos.x + a_size.x,
            2 * b_pos.x - b_size.x,
            2 * b_pos.x + b_size.x,
        );
        let yc = axis_contact(
            2 * a_pos.y - a_size.y,
            2 * a_pos.y + a_size.y,
            2 * b_pos.y - b_size.y,
            2 * b_pos.y + b_size.y,
        );
        let x_side = match xc {
            Some((true, _)) => Collision::Left,
            Some((false, _)) => Collision::Right,
            None => Collision::Inside,
        };
        let y_side = match yc {
            Some((true, _)) => Collision::Bottom,
            Some((false, _)) => Collision::Top,
            None => Collision::Inside,
        };
        let y_first = match (xc, yc) {
            (None, Some(_)) => true,
            (Some((_, dx)), Some((_, dy))) => dy < dx,
            _ => false,
        };
        if y_first {
            Some(y_side)
        } else {
            Some(x_side)
        }
    }
}

fn contact(a_lo: i64, a_hi: i64, b_lo: i64, b_hi: i64) -> (r: Option<(bool, i64)>)
    requires
        -4 * BOX_LIMIT <= a_lo <= 4 * BOX_LIMIT,
        -4 * BOX_LIMIT <= a_hi <= 4 * BOX_LIMIT,
        -4 * BOX_LIMIT <= b_lo <= 4 * BOX_LIMIT,
        -4 * BOX_LIMIT <= b_hi <= 4 * BOX_LIMIT,
    ensures
        match (r, axis_contact(a_lo as int, a_hi as int, b_lo as int, b_hi as int)) {
            (Some((l, d)), Some((sl, sd))) => l == sl && d == sd,
            (None, None) => true,
            _ => false,
        },
{
    if a_lo < b_lo && a_hi > b_lo && a_hi < b_hi {
        Some((true, a_hi - b_lo))
    } else if a_lo > b_lo && a_lo < b_hi && a_hi > b_hi {
        Some((false, b_hi - a_lo))
    } else {
        None
    }
}

/// Tests box `a` (centre `a_pos`, extents `a_size`) against box `b` and
/// returns the side of `b` that `a` hits, or `None` when they do not overlap.
pub fn collide(a_pos: Vector, a_size: Vector, b_pos: Vector, b_size: Vector) -> (r: Option<Collision>)
    requires
        within_box_limit(a_pos, a_size),
        within_box_limit(b_pos, b_size),
    ensures
        r == collision_side(a_pos, a_size, b_pos, b_size),
{
    let a_lo_x = 2 * a_pos.x - a_size.x;
    let a_hi_x = 2 * a_pos.x + a_size.x;
    let b_lo_x = 2 * b_pos.x - b_size.x;
    let b_hi_x = 2 * b_pos.x + b_size.x;
    let a_lo_y = 2 * a_pos.y - a_size.y;
    let a_hi_y = 2 * a_pos.y + a_size.y;
    let b_lo_y = 2 * b_pos.y - b_size.y;
    let b_hi_y = 2 * b_pos.y + b_size.y;
    if !(a_lo_x < b_hi_x && a_hi_x > b_lo_x && a_lo_y < b_hi_y && a_hi_y > b_lo_y) {
        return None;
    }
    let xc = contact(a_lo_x, a_hi_x, b_lo_x, b_hi_x);
    let yc = contact(a_lo_y, a_hi_y, b_lo_y, b_hi_y);
    let x_side = match xc {
        Some((true, _)) => Collision::Left,
        Some((false, _)) => Collision::Right,
        None => Collision::Inside,
    };
    let y_side = match yc {
        Some((true, _)) => Collision::Bottom,
        Some((false, _)) => Collision::Top,
        None => Collision::Inside,
    };
    let y_first = match (xc, yc) {
        (None, Some(_)) => true,
        (Some((_, dx)), Some((_, dy))) => dy < dx,
        _ => false,
    };
    if y_first {
        Some(y_side)
    } else {
        Some(x_side)
    }
}

/// `v` limited to the range from `lo` to `hi`.
pub open spec fn clamp_spec(v: int, lo: int, hi: int) -> int {
    if v < lo {
        lo
    } else if v > hi {
        hi
    } else {
        v
    }
}

pub fn clamp(v: i64, lo: i64, hi: i64) -> (r: i64)
    requires
        lo <= hi,
    ensures
        r == clamp_spec(v as int, lo as int, hi as int),
        lo <= r <= hi,
{
    if v < lo {
        lo
    } else if v > hi {
        hi
    } else {
        v
    }
}

} // verus!

//! The data attached to game entities.

use vstd::prelude::*;
use crate::geometry::{BoundingBox, Vector, Velocity};

verus! {

/// Marks a ball that rides on the paddle.
#[derive(Clone, Copy, Debug, PartialEq, Eq, Structural)]
pub struct StationaryBall;

/// Marks a ball in flight.
#[derive(Clone, Copy, Debug, PartialEq, Eq, Structural)]
pub struct FlyingBall;

/// Marks walls.
#[derive(Clone, Copy, Debug, PartialEq, Eq, Structural)]
pub struct Wall;

/// Marks paddles.
#[derive(Clone, Copy, Debug, PartialEq, Eq, Structural)]
pub struct Paddle;

/// Marks destructible bricks.
#[derive(Clone, Copy, Debug, PartialEq, Eq, Structural)]
pub struct Brick;

/// The game's score.
#[derive(Clone, Copy, Debug, PartialEq, Eq, Structural)]
pub struct Score(pub i64);

/// A colour, each channel in hundredths from 0 to 100.
#[derive(Clone, Copy, Debug, PartialEq, Eq, Structural)]
pub struct Rgb {
    pub r: u8,
    pub g: u8,
    pub b: u8,
}

impl Rgb {
    pub fn new(r: u8, g: u8, b: u8) -> (c: Rgb)
        ensures
            c.r == r,
            c.g == g,
            c.b == b,
    {
        Rgb { r, g, b }
    }
}

/// What a collider is, by the marker it carries.
#[derive(Clone, Copy, Debug, PartialEq, Eq, Structural)]
pub enum ColliderKind {
    Wall(Wall),
    Paddle(Paddle),
    Brick(Brick),
}

/// An entity that a ball bounces off: a wall, the paddle or a brick.
#[derive(Clone, Copy, Debug, PartialEq, Eq, Structural)]
pub struct BallCollider {
    pub position: Vector,
    pub size: BoundingBox,
    /// Zero for walls and bricks.
    pub velocity: Velocity,
    pub kind: ColliderKind,
    pub color: Rgb,
}

/// Largest coordinate of a collider, in length units.
pub const COLLIDER_REACH: i64 = 0x4000_0000;

/// Largest extent of a collider, in length units.
pub const COLLIDER_EXTENT: i64 = 0x1000_0000;

impl BallCollider {
    pub open spec fn is_brick(&self) -> bool {
        self.kind is Brick
    }

    pub open spec fn is_wall(&self) -> bool {
        self.kind is Wall
    }

    /// Position and size within the range on which the game is defined.
    pub open spec fn bounded(&self) -> bool {
        &&& -COLLIDER_REACH <= self.position.x <= COLLIDER_REACH
        &&& -COLLIDER_REACH <= self.position.y <= COLLIDER_REACH
        &&& 0 <= self.size.0.x <= COLLIDER_EXTENT
        &&& 0 <= self.size.0.y <= COLLIDER_EXTENT
    }
}

/// The ball's state: riding on the paddle, or flying.
#[derive(Clone, Copy, Debug, PartialEq, Eq, Structural)]
pub enum BallState {
    FollowingPaddle(StationaryBall),
    Flying(FlyingBall),
}

/// The ball.
#[derive(Clone, Copy, Debug, PartialEq, Eq, Structural)]
pub struct Ball {
    pub position: Vector,
    pub size: BoundingBox,
    pub velocity: Velocity,
    pub state: BallState,
}

} // verus!

//! Configuration of a game session, fixed at startup.

use vstd::prelude::*;
use crate::components::Rgb;
use crate::geometry::Vector;
use crate::steering::SPEED_LIMIT;

verus! {

/// Length units per pixel.
pub const SUBPIXELS: i64 = 100;

/// Largest window extent, entity size or offset that a valid configuration
/// holds, in length units.
pub const LENGTH_LIMIT: i64 = 0x1000_0000;

/// Largest score gained for one brick.
pub const SCORE_STEP_LIMIT: i64 = 0x7fff_ffff;

/// Configuration of a game session. Lengths are in length units
/// (`SUBPIXELS` to the pixel), speeds in length units per second, durations
/// in microseconds, colours in hundredths per channel.
#[derive(Clone, Debug)]
pub struct BreakoutConfig {
    /// Ticks per second.
    pub framerate: i64,
    pub window_width: i64,
    pub window_height: i64,
    pub background_color: Rgb,
    /// Draw layers; larger is nearer. They play no part in the simulation.
    pub ball_z: i64,
    pub brick_z: i64,
    pub paddle_z: i64,
    pub wall_z: i64,
    /// Half the thickness of a wall.
    pub wall_thickness: i64,
    pub paddle_size: Vector,
    pub paddle_base_speed: i64,
    /// Height of the paddle's centre above the bottom of the window.
    pub paddle_y_offset: i64,
    pub ball_radius: i64,
    pub ball_base_speed: i64,
    /// Gap between the paddle and a ball that rides on it.
    pub ball_y_offset: i64,
    pub brick_size: Vector,
    /// A brick fills each cell of a wave with probability
    /// `brick_spawn_numerator / brick_spawn_denominator`.
    pub brick_spawn_numerator: u32,
    pub brick_spawn_denominator: u32,
    /// Offset of the centre of the brick area above the window's centre.
    pub brick_area_y_offset: i64,
    pub brick_area_rows: u32,
    pub brick_area_cols: u32,
    /// Delay between an empty field and the next wave.
    pub brick_respawn_delay: u64,
    pub startup_score: i64,
    /// Score gained for each brick destroyed.
    pub score_brick: i64,
    pub score_font_path: String,
    pub score_font_size: u32,
    /// Colours that a brick takes at random.
    pub brick_colors: Vec<Rgb>,
}

impl BreakoutConfig {
    /// The bounds within which the simulation is defined and free of
    /// overflow: positive sizes that fit in the window where they must, a
    /// probability of at most one, and a score that never goes down.
    pub open spec fn valid(&self) -> bool {
        &&& 1 <= self.framerate
        &&& 0 < self.window_width <= LENGTH_LIMIT
        &&& 0 < self.window_height <= LENGTH_LIMIT
        &&& 0 <= self.wall_thickness <= LENGTH_LIMIT / 2
        &&& 0 < self.paddle_size.x <= self.window_width
        &&& 0 < self.paddle_size.y <= LENGTH_LIMIT
        &&& 0 <= self.paddle_base_speed <= SPEED_LIMIT
        &&& -LENGTH_LIMIT <= self.paddle_y_offset <= LENGTH_LIMIT
        &&& 0 < self.ball_radius && 2 * self.ball_radius <= self.window_width
        &&& 0 <= self.ball_base_speed <= SPEED_LIMIT
        &&& -LENGTH_LIMIT <= self.ball_y_offset <= LENGTH_LIMIT
        &&& 0 < self.brick_size.x <= LENGTH_LIMIT
        &&& 0 < self.brick_size.y <= LENGTH_LIMIT
        &&& self.brick_area_cols * self.brick_size.x <= LENGTH_LIMIT
        &&& self.brick_area_rows * self.brick_size.y <= LENGTH_LIMIT
        &&& 0 < self.brick_spawn_denominator
        &&& self.brick_spawn_numerator <= self.brick_spawn_denominator
        &&& -LENGTH_LIMIT <= self.brick_area_y_offset <= LENGTH_LIMIT
        &&& 0 <= self.score_brick <= SCORE_STEP_LIMIT
    }
}

impl Default for BreakoutConfig {
    fn default() -> (r: BreakoutConfig)
        ensures
            r.valid(),
            r.framerate == 60,
            r.window_width == 430 * SUBPIXELS,
            r.window_height == 600 * SUBPIXELS,
            r.wall_thickness == 5 * SUBPIXELS,
            r.paddle_size.x == 80 * SUBPIXELS,
            r.paddle_size.y == 15 * SUBPIXELS,
            r.paddle_base_speed == 400 * SUBPIXELS,
            r.paddle_y_offset == 30 * SUBPIXELS,
            r.ball_radius == 7 * SUBPIXELS,
            r.ball_base_speed == 550 * SUBPIXELS,
            r.ball_y_offset == 5 * SUBPIXELS,
            r.brick_size.x == 40 * SUBPIXELS,
            r.brick_size.y == 20 * SUBPIXELS,
            r.brick_area_y_offset == 100 * SUBPIXELS,
            r.brick_spawn_numerator == 1,
            r.brick_spawn_denominator == 5,
            r.brick_area_rows == 12,
            r.brick_area_cols == 6,
            r.brick_respawn_delay == 1_000_000,
            r.startup_score == 0,
            r.score_brick == 1,
            r.brick_colors@.len() == 37,
    {
        BreakoutConfig {
            framerate: 60,
            window_width: 430 * SUBPIXELS,
            window_height: 600 * SUBPIXELS,
            background_color: Rgb::new(21, 19, 17),
            ball_z: 1,
            brick_z: 3,
            paddle_z: 2,
            wall_z: 4,
            wall_thickness: 5 * SUBPIXELS,
            paddle_size: Vector { x: 80 * SUBPIXELS, y: 15 * SUBPIXELS },
            paddle_base_speed: 400 * SUBPIXELS,
            paddle_y_offset: 30 * SUBPIXELS,
            ball_radius: 7 * SUBPIXELS,
            ball_base_speed: 550 * SUBPIXELS,
            ball_y_offset: 5 * SUBPIXELS,
            brick_size: Vector { x: 40 * SUBPIXELS, y: 20 * SUBPIXELS },
            brick_spawn_numerator: 1,
            brick_spawn_denominator: 5,
            brick_area_y_offset: 100 * SUBPIXELS,
            brick_area_rows: 12,
            brick_area_cols: 6,
            brick_respawn_delay: 1_000_000,
            startup_score: 0,
            score_brick: 1,
            score_font_path: String::from_str("fonts/arial.ttf"),
            score_font_size: 32,
            brick_colors: default_palette(),
        }
    }
}

/// The default brick colours.
fn default_palette() -> (r: Vec<Rgb>)
    ensures
        r@.len() == 37,
{
    vec![
        Rgb::new(94, 97, 100),
        Rgb::new(98, 92, 84),
        Rgb::new(49, 100, 83),
        Rgb::new(94, 100, 100),
        Rgb::new(96, 96, 86),
        Rgb::new(100, 89, 77),
        Rgb::new(0, 0, 0),
        Rgb::new(0, 0, 100),
        Rgb::new(86, 8, 24),
        Rgb::new(0, 100, 100),
        Rgb::new(25, 25, 25),
        Rgb::new(0, 50, 0),
        Rgb::new(100, 0, 100),
        Rgb::new(100, 84, 0),
        Rgb::new(50, 50, 50),
        Rgb::new(0, 100, 0),
        Rgb::new(29, 0, 51),
        Rgb::new(20, 80, 20),
        Rgb::new(50, 0, 0),
        Rgb::new(10, 10, 44),
        Rgb::new(0, 0, 50),
        Rgb::new(50, 50, 0),
        Rgb::new(100, 65, 0),
        Rgb::new(100, 27, 0),
        Rgb::new(100, 8, 58),
        Rgb::new(50, 0, 50),
        Rgb::new(100, 0, 0),
        Rgb::new(98, 50, 45),
        Rgb::new(18, 55, 34),
        Rgb::new(75, 75, 75),
        Rgb::new(0, 50, 50),
        Rgb::new(100, 39, 28),
        Rgb::new(25, 88, 82),
        Rgb::new(93, 51, 93),
        Rgb::new(100, 100, 100),
        Rgb::new(100, 100, 0),
        Rgb::new(60, 80, 20),
    ]
}

} // verus!

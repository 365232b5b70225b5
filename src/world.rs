//! The whole game state and its tick: `Init`, `Input`, `Move`, `Paddle` and
//! `Ball` phases, in that order.

use vstd::prelude::*;
use rand::rngs::ThreadRng;
use crate::ball::{
    ball_contained, ball_in_play, ball_phase_spec, ball_spawn_spec, collider_in_play,
    launch_ball, launch_spec, reset_ball, reset_spec, spawn_ball, update_ball, count_bricks,
    BALL_FLOOR,
};
use crate::brick::{draw_cells, drawn_cells, layout_wave, respawn_step, wave_spec, BrickRespawn};
use crate::components::{Ball, BallCollider, Rgb, Score};
use crate::config::BreakoutConfig;
use crate::geometry::Vector;
use crate::paddle::{
    contain_paddle, contain_paddle_spec, control_paddle, control_speed, paddle_contained,
    paddle_spawn_spec, spawn_paddle,
};
use crate::steering::{div_toward_zero, SPEED_LIMIT};
use crate::wall::spawn_walls;

verus! {

/// What the player does during one tick, and how long it lasted.
#[derive(Clone, Copy, Debug, PartialEq, Eq, Structural)]
pub struct TickInput {
    /// "Move right" is held.
    pub right: bool,
    /// "Move left" is held.
    pub left: bool,
    /// "Launch" was pressed during this tick.
    pub launch: bool,
    /// Time since the previous tick, in microseconds.
    pub delta: u64,
}

/// The game state.
pub struct World {
    pub config: BreakoutConfig,
    pub paddle: BallCollider,
    pub ball: Ball,
    /// Walls and bricks, in the order in which the ball meets them.
    pub colliders: Vec<BallCollider>,
    pub score: Score,
    pub respawn: BrickRespawn,
}

/// The game state as plain values.
pub struct WorldView {
    pub paddle: BallCollider,
    pub ball: Ball,
    pub colliders: Seq<BallCollider>,
    pub score: int,
    pub respawn: BrickRespawn,
}

impl View for World {
    type V = WorldView;

    open spec fn view(&self) -> WorldView {
        WorldView {
            paddle: self.paddle,
            ball: self.ball,
            colliders: self.colliders@,
            score: self.score.0 as int,
            respawn: self.respawn,
        }
    }
}

/// Whether some collider of `cs` is a brick.
pub open spec fn any_brick(cs: Seq<BallCollider>) -> bool {
    exists|i: int| 0 <= i < cs.len() && (#[trigger] cs[i]).is_brick()
}

/// A wall or brick within the game's bounds, at rest.
pub open spec fn static_collider(c: BallCollider) -> bool {
    &&& collider_in_play(c)
    &&& c.velocity.0.is_zero()
    &&& !(c.kind is Paddle)
}

/// The paddle after the `Move` phase.
pub open spec fn moved_paddle(p: BallCollider, framerate: int) -> BallCollider {
    BallCollider {
        position: Vector {
            x: (p.position.x + div_toward_zero(p.velocity.0.x as int, framerate)) as i64,
            y: (p.position.y + div_toward_zero(p.velocity.0.y as int, framerate)) as i64,
        },
        ..p
    }
}

/// The ball after the `Move` phase.
pub open spec fn moved_ball(b: Ball, framerate: int) -> Ball {
    Ball {
        position: Vector {
            x: (b.position.x + div_toward_zero(b.velocity.0.x as int, framerate)) as i64,
            y: (b.position.y + div_toward_zero(b.velocity.0.y as int, framerate)) as i64,
        },
        ..b
    }
}

/// The paddle after the `Input` phase.
pub open spec fn steered_paddle(p: BallCollider, input: TickInput, cfg: BreakoutConfig) -> BallCollider {
    BallCollider {
        velocity: crate::geometry::Velocity(
            Vector { x: control_speed(cfg, input.right, input.left) as i64, ..p.velocity.0 },
        ),
        ..p
    }
}

/// The colliders after the `Init` phase: a new wave is added at the end when
/// the spawner calls for one.
pub open spec fn spawned_colliders(
    v: WorldView,
    input: TickInput,
    cells: Seq<Option<Rgb>>,
    cfg: BreakoutConfig,
) -> Seq<BallCollider> {
    if respawn_step(v.respawn, !any_brick(v.colliders), input.delta).1 {
        v.colliders + wave_spec(cfg, cells)
    } else {
        v.colliders
    }
}

/// One tick. `cells` are the drawn cells of a wave, used only if the spawner
/// calls for a wave in this tick.
pub open spec fn tick_spec(
    v: WorldView,
    input: TickInput,
    cells: Seq<Option<Rgb>>,
    cfg: BreakoutConfig,
) -> WorldView {
    let (respawn, _) = respawn_step(v.respawn, !any_brick(v.colliders), input.delta);
    let cs = spawned_colliders(v, input, cells, cfg);
    let ball = launch_spec(reset_spec(v.ball, cfg), input.launch, v.paddle.velocity.0.x as int, cfg);
    let paddle = steered_paddle(v.paddle, input, cfg);
    let paddle = moved_paddle(paddle, cfg.framerate as int);
    let ball = moved_ball(ball, cfg.framerate as int);
    let paddle = contain_paddle_spec(paddle, cs, cfg);
    let o = ball_phase_spec(ball, paddle, cs, cfg);
    WorldView {
        paddle,
        ball: o.ball,
        colliders: o.kept,
        score: v.score + cfg.score_brick * o.destroyed,
        respawn,
    }
}

/// `w` is what one tick makes of `v` with the drawn `cells`, which hold
/// what every draw gives where the tick calls for a wave.
pub open spec fn tick_outcome(
    v: WorldView,
    input: TickInput,
    cells: Seq<Option<Rgb>>,
    cfg: BreakoutConfig,
    w: WorldView,
) -> bool {
    &&& respawn_step(v.respawn, !any_brick(v.colliders), input.delta).1 ==> drawn_cells(cfg, cells)
    &&& w == tick_spec(v, input, cells, cfg)
}

/// Bound on the paddle's horizontal position between ticks.
pub const PADDLE_REACH: i64 = 0x2000_0000;

/// `v / framerate`, rounded toward zero.
fn displacement(v: i64, framerate: i64) -> (d: i64)
    requires
        framerate >= 1,
        -SPEED_LIMIT <= v <= SPEED_LIMIT,
    ensures
        d == div_toward_zero(v as int, framerate as int),
        -SPEED_LIMIT <= d <= SPEED_LIMIT,
        v >= 0 ==> d >= 0,
{
    if v >= 0 {
        assert(v / framerate <= v) by (nonlinear_arith)
            requires
                v >= 0,
                framerate >= 1,
        ;
        v / framerate
    } else {
        assert((-(v as int)) / (framerate as int) <= -(v as int)) by (nonlinear_arith)
            requires
                v < 0,
                framerate >= 1,
        ;
        -((-v) / framerate)
    }
}

fn any_brick_exec(cs: &Vec<BallCollider>) -> (r: bool)
    ensures
        r == any_brick(cs@),
{
    let mut i: usize = 0;
    while i < cs.len()
        invariant
            0 <= i <= cs@.len(),
            forall|j: int| 0 <= j < i ==> !(#[trigger] cs@[j]).is_brick(),
        decreases cs@.len() - i,
    {
        if let crate::components::ColliderKind::Brick(_) = cs[i].kind {
            return true;
        }
        i = i + 1;
    }
    false
}

impl World {
    /// The invariant of a session: a valid configuration; the paddle and the
    /// ball in play; walls and bricks bounded and at rest; the respawn timer
    /// running only while no brick stands.
    pub open spec fn wf(&self) -> bool {
        let cfg = self.config;
        &&& cfg.valid()
        &&& self.paddle.kind is Paddle
        &&& self.paddle.size.0 == cfg.paddle_size
        &&& self.paddle.position.y == -(cfg.window_height / 2) + cfg.paddle_y_offset
        &&& -0x4000_0000 <= self.paddle.position.x <= 0x4000_0000
        &&& self.paddle.velocity.0.y == 0
        &&& -cfg.paddle_base_speed <= self.paddle.velocity.0.x <= cfg.paddle_base_speed
        &&& ball_in_play(self.ball, cfg)
        &&& forall|i: int|
            0 <= i < self.colliders@.len() ==> static_collider(#[trigger] self.colliders@[i])
        &&& self.respawn.timer.wf()
        &&& !self.respawn.timer.finished
        &&& (!self.respawn.timer.paused ==> !any_brick(self.colliders@))
        &&& (self.respawn.immediate_spawn ==> !any_brick(self.colliders@))
    }

    /// Where a tick may start: the paddle near the window and the ball
    /// within reach of it.
    pub open spec fn settled(&self) -> bool {
        &&& -PADDLE_REACH <= self.paddle.position.x <= PADDLE_REACH
        &&& -BALL_FLOOR <= self.ball.position.x <= BALL_FLOOR
        &&& -BALL_FLOOR <= self.ball.position.y <= BALL_FLOOR
    }

    /// A score that the bricks standing and a full wave cannot push past
    /// the largest `i64`.
    pub open spec fn score_headroom(&self) -> bool {
        self.score.0 + self.config.score_brick * (self.colliders@.len()
            + self.config.brick_area_rows * self.config.brick_area_cols) <= i64::MAX
    }

    /// A new session: paddle, ball and walls spawned, the score at its
    /// starting value, and the first wave due at the first tick.
    pub fn new(config: BreakoutConfig) -> (w: World)
        requires
            config.valid(),
        ensures
            w.wf(),
            w.settled(),
            w.config == config,
            w.paddle == paddle_spawn_spec(config),
            w.ball == ball_spawn_spec(config),
            w.colliders@ == crate::wall::walls_spec(config),
            w.score.0 == config.startup_score,
            w.respawn.immediate_spawn,
            w.respawn.timer.duration == config.brick_respawn_delay,
    {
        let paddle = spawn_paddle(&config);
        let ball = spawn_ball(&config);
        let colliders = spawn_walls(&config);
        let respawn = BrickRespawn::new(config.brick_respawn_delay);
        let score = Score(config.startup_score);
        proof {
            let sp = config.ball_base_speed as int;
            assert(0 * 0 + 0 * 0 <= sp * sp) by (nonlinear_arith);
            assert forall|i: int| 0 <= i < colliders@.len() implies static_collider(
                #[trigger] colliders@[i],
            ) by {
                assert(colliders@[i].is_wall());
                assert(colliders@[i] == crate::wall::walls_spec(config)[i]);
            }
        }
        World { config, paddle, ball, colliders, score, respawn }
    }

    /// The `Init` phase: a wave of bricks when the spawner calls for one,
    /// then a flying ball out of bounds back to the paddle.
    pub fn init_phase(&mut self, delta: u64, cells: &Vec<Option<Rgb>>)
        requires
            old(self).wf(),
            respawn_step(old(self).respawn, !any_brick(old(self).colliders@), delta).1
                ==> cells@.len() == old(self).config.brick_area_rows
                * old(self).config.brick_area_cols,
        ensures
            final(self).wf(),
            final(self).config == old(self).config,
            final(self).paddle == old(self).paddle,
            final(self).score == old(self).score,
            final(self).respawn == respawn_step(
                old(self).respawn,
                !any_brick(old(self).colliders@),
                delta,
            ).0,
            final(self).colliders@ == (if respawn_step(
                old(self).respawn,
                !any_brick(old(self).colliders@),
                delta,
            ).1 {
                old(self).colliders@ + wave_spec(old(self).config, cells@)
            } else {
                old(self).colliders@
            }),
            final(self).colliders@.len() <= old(self).colliders@.len()
                + old(self).config.brick_area_rows * old(self).config.brick_area_cols,
            final(self).ball == reset_spec(old(self).ball, old(self).config),
            final(self).ball.state is Flying ==> !crate::ball::out_of_bounds(
                final(self).ball.position,
                final(self).config,
            ),
    {
        let ghost cs0 = self.colliders@;
        let ghost cfg = self.config;
        let empty = !any_brick_exec(&self.colliders);
        let spawn = self.respawn.update(empty, delta);
        if spawn {
            let mut wave = layout_wave(&self.config, cells);
            proof {
                crate::brick::lemma_wave_shape(cfg, cells@);
            }
            self.colliders.append(&mut wave);
            proof {
                let cs1 = self.colliders@;
                assert forall|i: int| 0 <= i < cs1.len() implies static_collider(
                    #[trigger] cs1[i],
                ) by {
                    if i >= cs0.len() {
                        assert(cs1[i] == wave_spec(cfg, cells@)[i - cs0.len()]);
                    }
                }
            }
        }
        reset_ball(&mut self.ball, &self.config);
    }

    /// The `Input` phase: a launch press sends a riding ball off, using the
    /// paddle's velocity from before this phase; the keys held set the
    /// paddle's velocity.
    pub fn input_phase(&mut self, input: TickInput)
        requires
            old(self).wf(),
        ensures
            final(self).wf(),
            final(self).config == old(self).config,
            final(self).colliders == old(self).colliders,
            final(self).score == old(self).score,
            final(self).respawn == old(self).respawn,
            final(self).ball == launch_spec(
                old(self).ball,
                input.launch,
                old(self).paddle.velocity.0.x as int,
                old(self).config,
            ),
            final(self).paddle == steered_paddle(old(self).paddle, input, old(self).config),
            final(self).ball.state is Flying ==> old(self).ball.state is Flying
                || final(self).ball.velocity.0.y >= 0,
    {
        let pv = self.paddle.velocity.0;
        launch_ball(&mut self.ball, input.launch, pv, &self.config);
        control_paddle(&mut self.paddle, input.right, input.left, &self.config);
    }

    /// The `Move` phase: each velocity applied for one frame.
    pub fn move_phase(&mut self)
        requires
            old(self).wf(),
            old(self).settled(),
        ensures
            final(self).wf(),
            final(self).config == old(self).config,
            final(self).colliders == old(self).colliders,
            final(self).score == old(self).score,
            final(self).respawn == old(self).respawn,
            final(self).paddle == moved_paddle(old(self).paddle, old(self).config.framerate as int),
            final(self).ball == moved_ball(old(self).ball, old(self).config.framerate as int),
            old(self).ball.velocity.0.y >= 0 ==> final(self).ball.position.y
                >= old(self).ball.position.y,
            old(self).ball.velocity.0.y < 0 ==> final(self).ball.position.y
                >= old(self).ball.position.y - SPEED_LIMIT,
    {
        let ghost cfg = self.config;
        let fr = self.config.framerate;
        let pdx = displacement(self.paddle.velocity.0.x, fr);
        let pdy = displacement(self.paddle.velocity.0.y, fr);
        self.paddle.position = Vector {
            x: self.paddle.position.x + pdx,
            y: self.paddle.position.y + pdy,
        };
        proof {
            crate::steering::lemma_component_bounds(
                self.ball.velocity.0.x as int,
                self.ball.velocity.0.y as int,
                cfg.ball_base_speed as int,
            );
        }
        let bdx = displacement(self.ball.velocity.0.x, fr);
        let bdy = displacement(self.ball.velocity.0.y, fr);
        self.ball.position = Vector { x: self.ball.position.x + bdx, y: self.ball.position.y + bdy };
    }

    /// The `Paddle` phase: the paddle kept in the window and off the walls.
    pub fn paddle_phase(&mut self)
        requires
            old(self).wf(),
        ensures
            final(self).wf(),
            final(self).config == old(self).config,
            final(self).colliders == old(self).colliders,
            final(self).score == old(self).score,
            final(self).respawn == old(self).respawn,
            final(self).ball == old(self).ball,
            final(self).paddle == contain_paddle_spec(
                old(self).paddle,
                old(self).colliders@,
                old(self).config,
            ),
            paddle_contained(final(self).paddle, final(self).config),
    {
        proof {
            assert forall|i: int| 0 <= i < self.colliders@.len() implies (
            #[trigger] self.colliders@[i]).bounded() by {
                assert(static_collider(self.colliders@[i]));
            }
        }
        contain_paddle(&mut self.paddle, &self.colliders, &self.config);
    }

    /// The `Ball` phase: the ball follows the paddle or meets the
    /// colliders; each brick that it hits is removed and scored.
    pub fn ball_phase(&mut self)
        requires
            old(self).wf(),
            old(self).score.0 + old(self).config.score_brick * old(self).colliders@.len()
                <= i64::MAX,
        ensures
            final(self).wf(),
            final(self).config == old(self).config,
            final(self).paddle == old(self).paddle,
            final(self).respawn == old(self).respawn,
            final(self).ball == ball_phase_spec(
                old(self).ball,
                old(self).paddle,
                old(self).colliders@,
                old(self).config,
            ).ball,
            final(self).colliders@ == ball_phase_spec(
                old(self).ball,
                old(self).paddle,
                old(self).colliders@,
                old(self).config,
            ).kept,
            final(self).score.0 == old(self).score.0 + old(self).config.score_brick
                * ball_phase_spec(
                old(self).ball,
                old(self).paddle,
                old(self).colliders@,
                old(self).config,
            ).destroyed,
            ball_contained(final(self).ball, final(self).config),
            final(self).ball.position.y >= old(self).ball.position.y
                || final(self).ball.position.y >= -BALL_FLOOR,
    {
        let ghost cs = self.colliders@;
        let ghost cfg = self.config;
        let ghost b = self.ball;
        proof {
            assert forall|i: int| 0 <= i < cs.len() implies collider_in_play(#[trigger] cs[i]) by {
                assert(static_collider(cs[i]));
            }
        }
        let destroyed = update_ball(&mut self.ball, &self.paddle, &mut self.colliders, &self.config);
        proof {
            lemma_ball_phase_keeps(b, self.paddle, cs, cfg);
            let sb = cfg.score_brick as int;
            assert(0 <= sb * destroyed <= sb * cs.len()) by (nonlinear_arith)
                requires
                    0 <= sb,
                    0 <= destroyed <= cs.len(),
            ;
            assert(sb * destroyed <= 0x7fff_ffff * 0xffff_ffff_ffff_ffff) by (nonlinear_arith)
                requires
                    0 <= sb <= 0x7fff_ffff,
                    0 <= destroyed <= 0xffff_ffff_ffff_ffff,
            ;
        }
        let gained = self.config.score_brick as i128 * destroyed as i128;
        self.score.0 = (self.score.0 as i128 + gained) as i64;
    }

    /// Advances the game by one tick. `cells` are the drawn cells of a
    /// wave, read only if the spawner calls for a wave in this tick.
    pub fn advance(&mut self, input: TickInput, cells: &Vec<Option<Rgb>>)
        requires
            old(self).wf(),
            old(self).settled(),
            old(self).score_headroom(),
            respawn_step(old(self).respawn, !any_brick(old(self).colliders@), input.delta).1
                ==> cells@.len() == old(self).config.brick_area_rows
                * old(self).config.brick_area_cols,
        ensures
            final(self)@ == tick_spec(old(self)@, input, cells@, old(self).config),
            final(self).config == old(self).config,
            final(self).wf(),
            final(self).settled(),
            paddle_contained(final(self).paddle, final(self).config),
            ball_contained(final(self).ball, final(self).config),
    {
        let ghost v0 = self@;
        let ghost cfg = self.config;
        self.init_phase(input.delta, cells);
        self.input_phase(input);
        let ghost b2 = self.ball;
        self.move_phase();
        assert(self.ball.position.y >= -BALL_FLOOR) by {
            if b2.velocity.0.y < 0 {
                assert(b2.state is Flying);
            }
        }
        self.paddle_phase();
        proof {
            let sb = cfg.score_brick as int;
            let l1 = self.colliders@.len() as int;
            let bound = v0.colliders.len() + cfg.brick_area_rows * cfg.brick_area_cols;
            assert(sb * l1 <= sb * bound) by (nonlinear_arith)
                requires
                    0 <= sb,
                    0 <= l1 <= bound,
            ;
        }
        self.ball_phase();
        assert(self@ == tick_spec(v0, input, cells@, cfg));
    }

    /// Advances the game by one tick, drawing a wave's cells at random when
    /// the spawner calls for one.
    pub fn tick(&mut self, input: TickInput, rng: &mut ThreadRng)
        requires
            old(self).wf(),
            old(self).settled(),
            old(self).score_headroom(),
        ensures
            exists|cells: Seq<Option<Rgb>>|
                #[trigger] tick_outcome(old(self)@, input, cells, old(self).config, final(self)@),
            final(self).config == old(self).config,
            final(self).wf(),
            final(self).settled(),
            paddle_contained(final(self).paddle, final(self).config),
            ball_contained(final(self).ball, final(self).config),
    {
        let ghost v0 = self@;
        let ghost cfg = self.config;
        let empty = !any_brick_exec(&self.colliders);
        let due = self.respawn.wave_due(empty, input.delta);
        let cells = if due {
            draw_cells(&self.config, rng)
        } else {
            Vec::new()
        };
        self.advance(input, &cells);
        assert(tick_outcome(v0, input, cells@, cfg, self@));
    }
}

proof fn lemma_ball_phase_keeps(b: Ball, paddle: BallCollider, cs: Seq<BallCollider>, cfg: BreakoutConfig)
    requires
        forall|i: int| 0 <= i < cs.len() ==> static_collider(#[trigger] cs[i]),
    ensures
        ({
            let kept = ball_phase_spec(b, paddle, cs, cfg).kept;
            &&& forall|i: int| 0 <= i < kept.len() ==> static_collider(#[trigger] kept[i])
            &&& !any_brick(cs) ==> !any_brick(kept)
        }),
{
    let kept = ball_phase_spec(b, paddle, cs, cfg).kept;
    if !(b.state is FollowingPaddle) {
        let s = cfg.ball_base_speed as int;
        let b1 = crate::ball::ball_hits(crate::ball::clamp_ball(b, cfg), paddle, s);
        crate::ball::lemma_collide_all_subset(b1, cs, s);
    }
    assert forall|i: int| 0 <= i < kept.len() implies static_collider(#[trigger] kept[i])
        && (!any_brick(cs) ==> !kept[i].is_brick()) by {
        assert(cs.contains(kept[i]));
    }
}

/// A tick adds to the score exactly `score_brick` for each brick that it
/// destroys: the colliders that go are bricks, and each counts once.
pub proof fn lemma_score_per_brick(
    v: WorldView,
    input: TickInput,
    cells: Seq<Option<Rgb>>,
    cfg: BreakoutConfig,
)
    ensures
        ({
            let w = tick_spec(v, input, cells, cfg);
            let standing = spawned_colliders(v, input, cells, cfg);
            let destroyed = count_bricks(standing) - count_bricks(w.colliders);
            &&& w.score == v.score + cfg.score_brick * destroyed
            &&& w.colliders.len() + destroyed == standing.len()
        }),
{
    let standing = spawned_colliders(v, input, cells, cfg);
    let ball = launch_spec(reset_spec(v.ball, cfg), input.launch, v.paddle.velocity.0.x as int, cfg);
    let ball = moved_ball(ball, cfg.framerate as int);
    let paddle = moved_paddle(steered_paddle(v.paddle, input, cfg), cfg.framerate as int);
    let paddle = contain_paddle_spec(paddle, standing, cfg);
    if !(ball.state is FollowingPaddle) {
        let s = cfg.ball_base_speed as int;
        crate::ball::lemma_collide_all_bricks(
            crate::ball::ball_hits(crate::ball::clamp_ball(ball, cfg), paddle, s),
            standing,
            s,
        );
    }
}

/// A flying ball beyond the reset margin is riding on the paddle, at rest,
/// after the tick, unless a launch is pressed in that very tick.
pub proof fn lemma_escape_returns_to_paddle(
    v: WorldView,
    input: TickInput,
    cells: Seq<Option<Rgb>>,
    cfg: BreakoutConfig,
)
    requires
        v.ball.state is Flying,
        crate::ball::out_of_bounds(v.ball.position, cfg),
        !input.launch,
    ensures
        tick_spec(v, input, cells, cfg).ball.state is FollowingPaddle,
        tick_spec(v, input, cells, cfg).ball.velocity.0.is_zero(),
{
    crate::ball::lemma_escaped_ball_resets(v.ball, cfg);
}

/// While a brick stands, no wave comes.
pub proof fn lemma_no_wave_while_bricks_stand(w: World, delta: u64)
    requires
        w.wf(),
        any_brick(w.colliders@),
    ensures
        !respawn_step(w.respawn, !any_brick(w.colliders@), delta).1,
{
}

/// A spawner that calls for a wave at once brings it at its next update,
/// whatever the field and the time elapsed; a new session starts so.
pub proof fn lemma_first_wave_at_once(r: BrickRespawn, field_empty: bool, delta: u64)
    requires
        r.immediate_spawn,
    ensures
        respawn_step(r, field_empty, delta).1,
        !respawn_step(r, field_empty, delta).0.immediate_spawn,
        respawn_step(r, field_empty, delta).0.timer.paused,
{
}

} // verus!

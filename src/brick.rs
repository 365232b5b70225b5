//! Waves of bricks: when one comes, and where its bricks stand.

use vstd::prelude::*;
use rand::rngs::ThreadRng;
use rand::seq::SliceRandom;
use rand::Rng;
use crate::components::{BallCollider, Brick, ColliderKind, Rgb};
use crate::config::BreakoutConfig;
use crate::geometry::{BoundingBox, Vector, Velocity};
use crate::timer::OneShotTimer;

verus! {

/// rand's `ThreadRng`, the thread's random generator, which the draws of a
/// wave take by reference.
#[verifier::external_type_specification]
#[verifier::external_body]
pub struct ExThreadRng(ThreadRng);

/// Relies on rand's `Rng::gen_ratio`: true with probability
/// `numerator / denominator`, always true when the two are equal, never when
/// the numerator is zero. It panics on a zero denominator or a numerator
/// above the denominator.
#[verifier::external_body]
fn draw_ratio(rng: &mut ThreadRng, numerator: u32, denominator: u32) -> (r: bool)
    requires
        0 < denominator,
        numerator <= denominator,
    ensures
        numerator == 0 ==> !r,
        numerator == denominator ==> r,
{
    rng.gen_ratio(numerator, denominator)
}

/// Relies on rand's `SliceRandom::choose` on a slice: `None` when it is
/// empty, else one of its elements picked at random.
#[verifier::external_body]
fn choose_color(palette: &Vec<Rgb>, rng: &mut ThreadRng) -> (r: Option<Rgb>)
    ensures
        r is None <==> palette@.len() == 0,
        r matches Some(c) ==> palette@.contains(c),
{
    palette.as_slice().choose(rng).copied()
}

/// The colour of a brick when the palette is empty.
pub open spec fn fallback_color() -> Rgb {
    Rgb { r: 100, g: 100, b: 100 }
}

/// A brick colour drawn for `cfg`: one of the palette, or the fallback
/// colour when the palette is empty.
pub open spec fn cell_color_ok(cfg: BreakoutConfig, c: Rgb) -> bool {
    if cfg.brick_colors@.len() > 0 {
        cfg.brick_colors@.contains(c)
    } else {
        c == fallback_color()
    }
}

/// What holds of every draw of a wave's cells: one per cell of the grid, all
/// empty at probability zero, all filled at probability one, and each colour
/// from the palette, or the fallback colour when the palette is empty.
pub open spec fn drawn_cells(cfg: BreakoutConfig, cells: Seq<Option<Rgb>>) -> bool {
    &&& cells.len() == cfg.brick_area_rows * cfg.brick_area_cols
    &&& cfg.brick_spawn_numerator == 0 ==> forall|k: int|
        0 <= k < cells.len() ==> #[trigger] cells[k] is None
    &&& cfg.brick_spawn_numerator == cfg.brick_spawn_denominator ==> forall|k: int|
        0 <= k < cells.len() ==> #[trigger] cells[k] is Some
    &&& forall|k: int|
        0 <= k < cells.len() ==> (#[trigger] cells[k] matches Some(c) ==> (
        cell_color_ok(cfg, c)))
}

/// Draws the cells of a wave, column by column and bottom to top within a
/// column: each cell holds a brick of a random palette colour with the
/// configured probability, or stays empty.
pub fn draw_cells(cfg: &BreakoutConfig, rng: &mut ThreadRng) -> (cells: Vec<Option<Rgb>>)
    requires
        cfg.valid(),
    ensures
        drawn_cells(*cfg, cells@),
{
    let mut cells: Vec<Option<Rgb>> = Vec::new();
    let rows = cfg.brick_area_rows;
    let cols = cfg.brick_area_cols;
    let mut col: u32 = 0;
    while col < cols
        invariant
            cfg.valid(),
            rows == cfg.brick_area_rows,
            cols == cfg.brick_area_cols,
            col <= cols,
            cells@.len() == col * rows,
            cfg.brick_spawn_numerator == 0 ==> forall|k: int|
                0 <= k < cells@.len() ==> #[trigger] cells@[k] is None,
            cfg.brick_spawn_numerator == cfg.brick_spawn_denominator ==> forall|k: int|
                0 <= k < cells@.len() ==> #[trigger] cells@[k] is Some,
            forall|k: int|
                0 <= k < cells@.len() ==> (#[trigger] cells@[k] matches Some(c) ==> (
                cell_color_ok(*cfg, c))),
        decreases cols - col,
    {
        let mut row: u32 = 0;
        while row < rows
            invariant
                cfg.valid(),
                rows == cfg.brick_area_rows,
                cols == cfg.brick_area_cols,
                col < cols,
                row <= rows,
                cells@.len() == col * rows + row,
                cfg.brick_spawn_numerator == 0 ==> forall|k: int|
                    0 <= k < cells@.len() ==> #[trigger] cells@[k] is None,
                cfg.brick_spawn_numerator == cfg.brick_spawn_denominator ==> forall|k: int|
                    0 <= k < cells@.len() ==> #[trigger] cells@[k] is Some,
                forall|k: int|
                    0 <= k < cells@.len() ==> (#[trigger] cells@[k] matches Some(c) ==> (
                    cell_color_ok(*cfg, c))),
            decreases rows - row,
        {
            if draw_ratio(rng, cfg.brick_spawn_numerator, cfg.brick_spawn_denominator) {
                let color = match choose_color(&cfg.brick_colors, rng) {
                    Some(c) => c,
                    None => Rgb::new(100, 100, 100),
                };
                cells.push(Some(color));
            } else {
                cells.push(None);
            }
            row = row + 1;
        }
        assert((col + 1) * rows == col * rows + rows) by (nonlinear_arith);
        col = col + 1;
    }
    assert(cols * rows == rows * cols) by (nonlinear_arith);
    cells
}

/// Centre of the brick in column `col` and row `row`: the grid is centred
/// horizontally and raised `brick_area_y_offset` above the window's centre.
pub open spec fn cell_center(cfg: BreakoutConfig, col: int, row: int) -> (int, int) {
    let bw = cfg.brick_size.x as int;
    let bh = cfg.brick_size.y as int;
    (
        -((cfg.brick_area_cols * bw) / 2) + bw / 2 + col * bw,
        -((cfg.brick_area_rows * bh) / 2) + bh / 2 + cfg.brick_area_y_offset + row * bh,
    )
}

/// The brick of cell `k` (column `k / rows`, row `k % rows`).
pub open spec fn brick_at(cfg: BreakoutConfig, k: int, color: Rgb) -> BallCollider {
    let (x, y) = cell_center(
        cfg,
        k / cfg.brick_area_rows as int,
        k % cfg.brick_area_rows as int,
    );
    BallCollider {
        position: Vector { x: x as i64, y: y as i64 },
        size: BoundingBox(cfg.brick_size),
        velocity: Velocity(Vector { x: 0, y: 0 }),
        kind: ColliderKind::Brick(Brick),
        color,
    }
}

/// The bricks of a wave: one for each filled cell, in cell order.
pub open spec fn wave_spec(cfg: BreakoutConfig, cells: Seq<Option<Rgb>>) -> Seq<BallCollider>
    decreases cells.len(),
{
    if cells.len() == 0 {
        Seq::empty()
    } else {
        let rest = wave_spec(cfg, cells.drop_last());
        match cells.last() {
            Some(c) => rest.push(brick_at(cfg, cells.len() - 1, c)),
            None => rest,
        }
    }
}

/// The number of filled cells.
pub open spec fn filled(cells: Seq<Option<Rgb>>) -> nat
    decreases cells.len(),
{
    if cells.len() == 0 {
        0
    } else {
        filled(cells.drop_last()) + if cells.last() is Some {
            1nat
        } else {
            0nat
        }
    }
}

/// A wave has one brick per filled cell, and every one is a bounded brick.
pub proof fn lemma_wave_shape(cfg: BreakoutConfig, cells: Seq<Option<Rgb>>)
    requires
        cfg.valid(),
        cells.len() <= cfg.brick_area_rows * cfg.brick_area_cols,
    ensures
        wave_spec(cfg, cells).len() == filled(cells),
        filled(cells) <= cells.len(),
        forall|i: int|
            0 <= i < wave_spec(cfg, cells).len() ==> (#[trigger] wave_spec(cfg, cells)[i]).is_brick()
                && wave_spec(cfg, cells)[i].bounded() && wave_spec(cfg, cells)[i].velocity.0.is_zero(),
    decreases cells.len(),
{
    if cells.len() > 0 {
        lemma_wave_shape(cfg, cells.drop_last());
        if let Some(c) = cells.last() {
            lemma_cell_bounded(cfg, cells.len() - 1, c);
        }
    }
}

/// The bricks of a wave are exactly those of its filled cells: each filled
/// cell `k` gives the brick at column `k / rows`, row `k % rows` in its
/// colour, and each brick of the wave comes from one filled cell.
pub proof fn lemma_wave_cells(cfg: BreakoutConfig, cells: Seq<Option<Rgb>>)
    ensures
        forall|k: int|
            0 <= k < cells.len() && #[trigger] cells[k] is Some ==> wave_spec(cfg, cells).contains(
                brick_at(cfg, k, cells[k].unwrap()),
            ),
        forall|j: int|
            0 <= j < wave_spec(cfg, cells).len() ==> exists|k: int|
                0 <= k < cells.len() && cells[k] == Some(wave_spec(cfg, cells)[j].color) && (
                #[trigger] wave_spec(cfg, cells)[j]) == brick_at(cfg, k, cells[k].unwrap()),
    decreases cells.len(),
{
    if cells.len() > 0 {
        let prev = cells.drop_last();
        lemma_wave_cells(cfg, prev);
        let w = wave_spec(cfg, cells);
        let pw = wave_spec(cfg, prev);
        assert forall|k: int| 0 <= k < cells.len() && #[trigger] cells[k] is Some implies w.contains(
            brick_at(cfg, k, cells[k].unwrap()),
        ) by {
            if k < cells.len() - 1 {
                assert(prev[k] == cells[k]);
                let j = choose|j: int| 0 <= j < pw.len() && pw[j] == brick_at(cfg, k, prev[k].unwrap());
                assert(w[j] == pw[j]);
            } else {
                assert(w[w.len() - 1] == brick_at(cfg, k, cells[k].unwrap()));
            }
        }
        assert forall|j: int| 0 <= j < w.len() implies exists|k: int|
            0 <= k < cells.len() && cells[k] == Some(w[j].color) && (#[trigger] w[j]) == brick_at(
                cfg,
                k,
                cells[k].unwrap(),
            ) by {
            if j < pw.len() {
                assert(w[j] == pw[j]);
                let k = choose|k: int|
                    0 <= k < prev.len() && prev[k] == Some(pw[j].color) && (#[trigger] pw[j])
                        == brick_at(cfg, k, prev[k].unwrap());
                assert(cells[k] == prev[k]);
            } else {
                let k = cells.len() - 1;
                assert(cells[k] == Some(w[j].color) && w[j] == brick_at(cfg, k, cells[k].unwrap()));
            }
        }
    }
}

proof fn lemma_cell_bounded(cfg: BreakoutConfig, k: int, color: Rgb)
    requires
        cfg.valid(),
        0 <= k < cfg.brick_area_rows * cfg.brick_area_cols,
    ensures
        cfg.brick_area_rows > 0,
        0 <= k / (cfg.brick_area_rows as int) < cfg.brick_area_cols,
        0 <= k % (cfg.brick_area_rows as int) < cfg.brick_area_rows,
        brick_at(cfg, k, color).bounded(),
        brick_at(cfg, k, color).position.x == cell_center(
            cfg,
            k / cfg.brick_area_rows as int,
            k % cfg.brick_area_rows as int,
        ).0,
        brick_at(cfg, k, color).position.y == cell_center(
            cfg,
            k / cfg.brick_area_rows as int,
            k % cfg.brick_area_rows as int,
        ).1,
{
    let rows = cfg.brick_area_rows as int;
    let cols = cfg.brick_area_cols as int;
    let bw = cfg.brick_size.x as int;
    let bh = cfg.brick_size.y as int;
    let col = k / rows;
    let row = k % rows;
    assert(rows > 0) by (nonlinear_arith)
        requires
            0 <= k < rows * cols,
            rows >= 0,
            cols >= 0,
    ;
    assert(0 <= col < cols && 0 <= row < rows) by (nonlinear_arith)
        requires
            0 <= k < rows * cols,
            rows > 0,
            col == k / rows,
            row == k % rows,
    ;
    assert(0 <= col * bw <= cols * bw && 0 <= row * bh <= rows * bh) by (nonlinear_arith)
        requires
            0 <= col < cols,
            0 <= row < rows,
            bw > 0,
            bh > 0,
    ;
    assert(cols * bw >= 0 && rows * bh >= 0) by (nonlinear_arith)
        requires
            cols >= 0,
            rows >= 0,
            bw > 0,
            bh > 0,
    ;
}

/// Lays out the bricks of a wave from its drawn cells.
pub fn layout_wave(cfg: &BreakoutConfig, cells: &Vec<Option<Rgb>>) -> (r: Vec<BallCollider>)
    requires
        cfg.valid(),
        cells@.len() == cfg.brick_area_rows * cfg.brick_area_cols,
    ensures
        r@ == wave_spec(*cfg, cells@),
        r@.len() == filled(cells@),
{
    let mut r: Vec<BallCollider> = Vec::new();
    let rows = cfg.brick_area_rows as i64;
    let cols = cfg.brick_area_cols as i64;
    let bw = cfg.brick_size.x;
    let bh = cfg.brick_size.y;
    let mut k: usize = 0;
    proof {
        lemma_wave_shape(*cfg, cells@);
    }
    while k < cells.len()
        invariant
            cfg.valid(),
            cells@.len() == cfg.brick_area_rows * cfg.brick_area_cols,
            rows == cfg.brick_area_rows,
            cols == cfg.brick_area_cols,
            bw == cfg.brick_size.x,
            bh == cfg.brick_size.y,
            0 <= k <= cells@.len(),
            r@ == wave_spec(*cfg, cells@.take(k as int)),
        decreases cells@.len() - k,
    {
        proof {
            assert(cells@.take(k as int + 1).drop_last() =~= cells@.take(k as int));
        }
        if let Some(color) = cells[k] {
            proof {
                lemma_cell_bounded(*cfg, k as int, color);
                assert(rows * cols < 0x1_0000_0000_0000_0000) by (nonlinear_arith)
                    requires
                        0 <= rows <= 0xffff_ffff,
                        0 <= cols <= 0xffff_ffff,
                ;
            }
            let ku = k as u64;
            let col = (ku / cfg.brick_area_rows as u64) as i64;
            let row = (ku % cfg.brick_area_rows as u64) as i64;
            proof {
                assert(0 <= col * bw <= cols * bw <= 0x1000_0000 && 0 <= row * bh <= rows * bh
                    <= 0x1000_0000) by (nonlinear_arith)
                    requires
                        0 <= col < cols,
                        0 <= row < rows,
                        0 < bw,
                        0 < bh,
                        cols * bw <= 0x1000_0000,
                        rows * bh <= 0x1000_0000,
                ;
            }
            let x = -((cols * bw) / 2) + bw / 2 + col * bw;
            let y = -((rows * bh) / 2) + bh / 2 + cfg.brick_area_y_offset + row * bh;
            r.push(
                BallCollider {
                    position: Vector { x, y },
                    size: BoundingBox(cfg.brick_size),
                    velocity: Velocity(Vector { x: 0, y: 0 }),
                    kind: ColliderKind::Brick(Brick),
                    color,
                },
            );
        }
        k = k + 1;
    }
    assert(cells@.take(cells@.len() as int) =~= cells@);
    r
}

/// When the next wave of bricks comes: at once while `immediate_spawn` is
/// set, else when the timer, which runs only while the field is empty,
/// finishes.
#[derive(Clone, Copy, Debug, PartialEq, Eq, Structural)]
pub struct BrickRespawn {
    pub immediate_spawn: bool,
    pub timer: OneShotTimer,
}

/// The spawner after one tick of `delta` microseconds, and whether a wave
/// comes in it.
pub open spec fn respawn_step(r: BrickRespawn, field_empty: bool, delta: u64) -> (
    BrickRespawn,
    bool,
) {
    let t1 = if field_empty {
        OneShotTimer { paused: false, ..r.timer }
    } else {
        r.timer
    };
    let t2 = t1.tick_spec(delta);
    if r.immediate_spawn || t2.just_finished {
        (BrickRespawn { immediate_spawn: false, timer: t2.rewound() }, true)
    } else {
        (BrickRespawn { immediate_spawn: r.immediate_spawn, timer: t2 }, false)
    }
}

impl BrickRespawn {
    /// A spawner that brings the first wave at once, with its timer paused.
    pub fn new(delay: u64) -> (r: BrickRespawn)
        ensures
            r.immediate_spawn,
            r.timer.paused,
            r.timer.wf(),
            r.timer.duration == delay,
            r.timer.elapsed == 0,
            !r.timer.finished,
            !r.timer.just_finished,
    {
        BrickRespawn { immediate_spawn: true, timer: OneShotTimer::new_paused(delay) }
    }

    /// Whether a wave comes at the next update with these arguments.
    pub fn wave_due(&self, field_empty: bool, delta: u64) -> (due: bool)
        requires
            self.timer.wf(),
        ensures
            due == respawn_step(*self, field_empty, delta).1,
    {
        let mut t = self.timer;
        if field_empty {
            t.paused = false;
        }
        t.tick(delta);
        self.immediate_spawn || t.just_finished
    }

    /// Advances the spawner by `delta` microseconds; returns whether a wave
    /// comes now.
    pub fn update(&mut self, field_empty: bool, delta: u64) -> (spawn: bool)
        requires
            old(self).timer.wf(),
        ensures
            (*final(self), spawn) == respawn_step(*old(self), field_empty, delta),
            final(self).timer.wf(),
    {
        if field_empty {
            self.timer.paused = false;
        }
        self.timer.tick(delta);
        if self.immediate_spawn || self.timer.just_finished {
            self.timer.rewind();
            self.immediate_spawn = false;
            true
        } else {
            false
        }
    }
}

} // verus!

//! The ray caster: marches a ray from an origin through the grid in fixed
//! increments and reports the first hit.

use vstd::prelude::*;
use vstd::arithmetic::div_mod::{lemma_div_multiples_vanish, lemma_mod_division_less_than_divisor};
use vstd::arithmetic::mul::{lemma_mul_inequality, lemma_mul_nonnegative};
use crate::fixed::{lemma_frac_lt, lemma_scale_le, TWO_PI_FP};
use crate::maze::{blocks, grid_view, maze_wf, BOUNDARY_CELL};
use crate::{RenderConfig, FP, MAX_COORD, MAX_DIST};

verus! {

/// A fixed-point displacement: `d` world units along one direction
/// component `v` (a cosine or sine scaled by `FP`), rounded toward zero.
pub open spec fn fp_scale(d: int, v: int) -> int {
    if v >= 0 {
        d * v / (FP as int)
    } else {
        -(d * (-v) / (FP as int))
    }
}

/// The coordinate reached after marching `d` from `o` along `v`.
pub open spec fn sample_coord(o: int, v: int, d: int) -> int {
    o + fp_scale(d, v)
}

/// Whether the sample at distance `d` stops the ray: it left the grid
/// (the implicit boundary wall) or sits on a blocking cell.
pub open spec fn ray_hits_at(
    m: Seq<Seq<char>>,
    ox: int,
    oy: int,
    dx: int,
    dy: int,
    cell_fp: int,
    d: int,
) -> bool {
    let x = sample_coord(ox, dx, d);
    let y = sample_coord(oy, dy, d);
    ||| x < 0
    ||| y < 0
    ||| y / cell_fp >= m.len()
    ||| x / cell_fp >= m[0].len()
    ||| blocks(m[y / cell_fp][x / cell_fp])
}

/// Whether the `j`-th sample of a march with step `step` stops the ray.
pub open spec fn ray_hits_at_step(
    m: Seq<Seq<char>>,
    ox: int,
    oy: int,
    dx: int,
    dy: int,
    cell_fp: int,
    step: int,
    j: int,
) -> bool {
    ray_hits_at(m, ox, oy, dx, dy, cell_fp, j * step)
}

/// The cell code seen at distance `d`: the sampled cell's code inside the
/// grid, the boundary code outside.
pub open spec fn ray_cell_at(
    m: Seq<Seq<char>>,
    ox: int,
    oy: int,
    dx: int,
    dy: int,
    cell_fp: int,
    d: int,
) -> char {
    let x = sample_coord(ox, dx, d);
    let y = sample_coord(oy, dy, d);
    if x >= 0 && y >= 0 && y / cell_fp < m.len() && x / cell_fp < m[0].len() {
        m[y / cell_fp][x / cell_fp]
    } else {
        BOUNDARY_CELL
    }
}

/// The first sample index in `[k, max]` whose sample stops the ray, or
/// `max` when none before `max` does.
pub open spec fn first_hit_from(
    m: Seq<Seq<char>>,
    ox: int,
    oy: int,
    dx: int,
    dy: int,
    cell_fp: int,
    step: int,
    k: nat,
    max: nat,
) -> nat
    decreases max - k,
{
    if k >= max {
        max
    } else if ray_hits_at(m, ox, oy, dx, dy, cell_fp, k * step) {
        k
    } else {
        first_hit_from(m, ox, oy, dx, dy, cell_fp, step, (k + 1) as nat, max)
    }
}

/// The index of the first stopping sample of a ray, capped at `max`.
pub open spec fn first_hit(
    m: Seq<Seq<char>>,
    ox: int,
    oy: int,
    dx: int,
    dy: int,
    cell_fp: int,
    step: int,
    max: nat,
) -> nat {
    first_hit_from(m, ox, oy, dx, dy, cell_fp, step, 0, max)
}

/// The march stops exactly at the wall: the first stopping sample stops
/// the ray and no earlier sample does, so the exact crossing into the
/// struck cell lies less than one march step below the reported distance.
pub proof fn lemma_first_hit_brackets_wall(
    m: Seq<Seq<char>>,
    ox: int,
    oy: int,
    dx: int,
    dy: int,
    cell_fp: int,
    step: int,
    k: nat,
    max: nat,
)
    requires
        k <= max,
    ensures
        k <= first_hit_from(m, ox, oy, dx, dy, cell_fp, step, k, max) <= max,
        forall|j: int|
            k <= j < first_hit_from(m, ox, oy, dx, dy, cell_fp, step, k, max) ==> !(
            #[trigger] ray_hits_at_step(m, ox, oy, dx, dy, cell_fp, step, j)),
        first_hit_from(m, ox, oy, dx, dy, cell_fp, step, k, max) < max ==> ray_hits_at_step(
            m,
            ox,
            oy,
            dx,
            dy,
            cell_fp,
            step,
            first_hit_from(m, ox, oy, dx, dy, cell_fp, step, k, max) as int,
        ),
    decreases max - k,
{
    if k < max && !ray_hits_at(m, ox, oy, dx, dy, cell_fp, k * step) {
        lemma_first_hit_brackets_wall(m, ox, oy, dx, dy, cell_fp, step, (k + 1) as nat, max);
    }
}

/// The first hit is pinned by its samples: when no sample before the
/// `n`-th stops the ray and the `n`-th does, the first hit is exactly
/// `n`.
pub proof fn lemma_first_hit_of_prefix(
    m: Seq<Seq<char>>,
    ox: int,
    oy: int,
    dx: int,
    dy: int,
    cell_fp: int,
    step: int,
    k: nat,
    n: nat,
    max: nat,
)
    requires
        k <= n < max,
        forall|j: int|
            k <= j < n ==> !(#[trigger] ray_hits_at_step(m, ox, oy, dx, dy, cell_fp, step, j)),
        ray_hits_at_step(m, ox, oy, dx, dy, cell_fp, step, n as int),
    ensures
        first_hit_from(m, ox, oy, dx, dy, cell_fp, step, k, max) == n,
    decreases n - k,
{
    if k < n {
        assert(!ray_hits_at_step(m, ox, oy, dx, dy, cell_fp, step, k as int));
        lemma_first_hit_of_prefix(m, ox, oy, dx, dy, cell_fp, step, (k + 1) as nat, n, max);
    }
}

/// A straight march with a one-cell step stops on the wall's cell: from a
/// start inside column `c0` of one row, heading along the x axis — either
/// sign of approach — with the nearest wall `n` columns away and free
/// cells between, the cast's first hit is exactly the `n`-th sample, so
/// its marched distance is exactly `n` cells.
pub proof fn lemma_straight_cast_hits_nth_cell(
    m: Seq<Seq<char>>,
    ox: int,
    oy: int,
    cell_fp: int,
    n: nat,
    max: nat,
    east: bool,
)
    requires
        maze_wf(m),
        cell_fp >= 1,
        ox >= 0,
        oy >= 0,
        0 <= oy / cell_fp < m.len(),
        east ==> ox / cell_fp + n < m[0].len(),
        !east ==> n <= ox / cell_fp < m[0].len(),
        n < max,
        forall|c: int|
            ((east && ox / cell_fp <= c < ox / cell_fp + n) || (!east && ox / cell_fp - n < c
                <= ox / cell_fp)) ==> !blocks(#[trigger] m[oy / cell_fp][c]),
        blocks(
            m[oy / cell_fp][if east {
                ox / cell_fp + n
            } else {
                ox / cell_fp - n
            }],
        ),
    ensures
        first_hit(
            m,
            ox,
            oy,
            if east {
                FP as int
            } else {
                -(FP as int)
            },
            0,
            cell_fp,
            cell_fp,
            max,
        ) == n,
{
    let dx: int = if east { FP as int } else { -(FP as int) };
    let c0 = ox / cell_fp;
    let r0 = oy / cell_fp;
    assert forall|j: int|
        0 <= j <= n implies (#[trigger] ray_hits_at_step(m, ox, oy, dx, 0, cell_fp, cell_fp, j)
        <==> blocks(m[r0][if east { c0 + j } else { c0 - j }])) by {
        let d = j * cell_fp;
        lemma_mul_nonnegative(j, cell_fp);
        lemma_div_multiples_vanish(d, FP as int);
        assert(d * (FP as int) == (FP as int) * d) by (nonlinear_arith);
        assert(d * 0 == 0) by (nonlinear_arith);
        vstd::arithmetic::div_mod::lemma_div_of0(FP as int);
        vstd::arithmetic::div_mod::lemma_hoist_over_denominator(ox, j, cell_fp as nat);
        vstd::arithmetic::div_mod::lemma_hoist_over_denominator(ox, -j, cell_fp as nat);
        assert(sample_coord(oy, 0, d) == oy);
        if east {
            assert(sample_coord(ox, dx, d) == ox + d);
            assert((ox + j * cell_fp) / cell_fp == c0 + j);
        } else {
            assert(sample_coord(ox, dx, d) == ox - d);
            vstd::arithmetic::div_mod::lemma_fundamental_div_mod(ox, cell_fp);
            vstd::arithmetic::div_mod::lemma_mod_division_less_than_divisor(ox, cell_fp);
            assert(cell_fp * c0 >= cell_fp * j) by (nonlinear_arith)
                requires c0 >= j && cell_fp >= 1;
            assert(cell_fp * j == j * cell_fp) by (nonlinear_arith);
            assert(ox - j * cell_fp >= 0);
            assert((ox + (-j) * cell_fp) / cell_fp == c0 - j);
            assert((-j) * cell_fp == -(j * cell_fp)) by (nonlinear_arith);
        }
    };
    assert forall|j: int|
        0 <= j < n implies !(#[trigger] ray_hits_at_step(
        m,
        ox,
        oy,
        dx,
        0,
        cell_fp,
        cell_fp,
        j,
    )) by {
        if east {
            assert(!blocks(m[r0][c0 + j]));
        } else {
            assert(!blocks(m[r0][c0 - j]));
        }
    };
    assert(ray_hits_at_step(m, ox, oy, dx, 0, cell_fp, cell_fp, n as int));
    lemma_first_hit_of_prefix(m, ox, oy, dx, 0, cell_fp, cell_fp, 0, n, max);
}

/// The fractional position of a sample across the struck cell face, taken
/// along whichever world axis the ray runs less along, modulo the cell
/// size and scaled to `[0, FP)`.
pub open spec fn tangent_at(x: int, y: int, dx: int, dy: int, cell_fp: int) -> int {
    if x < 0 || y < 0 {
        0
    } else {
        let adx = if dx >= 0 { dx } else { -dx };
        let ady = if dy >= 0 { dy } else { -dy };
        if adx >= ady {
            (y % cell_fp) * (FP as int) / cell_fp
        } else {
            (x % cell_fp) * (FP as int) / cell_fp
        }
    }
}

/// The result of one cast.
pub struct RayHit {
    /// How many whole march steps were taken.
    pub steps: u64,
    /// The raw marched distance, in fixed-point world units.
    pub distance: u64,
    /// The struck cell's code; `BOUNDARY_CELL` when the ray left the grid
    /// or the march bound ran out.
    pub kind: char,
    /// Texture coordinate across the struck face, in `[0, FP)`.
    pub tangent: u64,
}

/// One marched coordinate; `None` means the sample left the world on the
/// negative side.
pub(crate) fn sample_coord_exec(o: u64, v: i64, d: u64) -> (r: Option<u64>)
    requires
        o <= MAX_COORD,
        -(FP as i64) <= v <= (FP as i64),
        d <= MAX_DIST,
    ensures
        match r {
            Some(x) => x == sample_coord(o as int, v as int, d as int) && x <= MAX_COORD
                + MAX_DIST,
            None => sample_coord(o as int, v as int, d as int) < 0,
        },
{
    if v >= 0 {
        proof {
            assert((d as int) * (v as int) <= 0x4000_0000_0000) by (nonlinear_arith)
                requires 0 <= (d as int) <= 0x4000_0000 && 0 <= (v as int) <= 0x10000;
            lemma_scale_le(d as int, v as int, FP as int);
        }
        let mag = d * (v as u64) / FP;
        Some(o + mag)
    } else {
        let vv = (-v) as u64;
        proof {
            assert((d as int) * (vv as int) <= 0x4000_0000_0000) by (nonlinear_arith)
                requires 0 <= (d as int) <= 0x4000_0000 && 0 <= (vv as int) <= 0x10000;
            lemma_scale_le(d as int, vv as int, FP as int);
        }
        let mag = d * vv / FP;
        if mag > o {
            None
        } else {
            Some(o - mag)
        }
    }
}

/// The tangent offset at a sample, exactly as `tangent_at` states it.
fn tangent_exec(x: u64, y: u64, dx: i64, dy: i64, cell_fp: u64) -> (t: u64)
    requires
        1 <= cell_fp <= 0x8000_0000,
        dx > i64::MIN,
        dy > i64::MIN,
    ensures
        t == tangent_at(x as int, y as int, dx as int, dy as int, cell_fp as int),
        t < FP,
{
    let adx = if dx >= 0 { dx } else { -dx };
    let ady = if dy >= 0 { dy } else { -dy };
    let f = if adx >= ady { y % cell_fp } else { x % cell_fp };
    proof {
        lemma_mod_division_less_than_divisor(y as int, cell_fp as int);
        lemma_mod_division_less_than_divisor(x as int, cell_fp as int);
        assert((f as int) * 65536 < 0x8000_0000_0000_0000) by (nonlinear_arith)
            requires 0 <= (f as int) < 0x1_0000_0000;
        lemma_frac_lt(f as int, cell_fp as int, FP as int);
    }
    f * FP / cell_fp
}

/// Casts one ray: marches from `(ox, oy)` along the direction `(dx, dy)`
/// (a unit vector with both components scaled by `FP`) in increments of
/// `cfg.step`, stopping at the first sample that is outside the grid or
/// on a blocking cell. The struck sample blocks and no earlier sample
/// does, so the reported distance overshoots the exact crossing into the
/// struck cell by less than one march step. A ray that leaves the grid
/// reports the implicit boundary wall, never an out-of-range access, and
/// a ray that exhausts the march bound reports the boundary at that
/// distance.
pub fn cast_ray(
    maze: &Vec<Vec<char>>,
    ox: u64,
    oy: u64,
    dx: i64,
    dy: i64,
    cfg: &RenderConfig,
) -> (r: RayHit)
    requires
        maze_wf(grid_view(maze)),
        cfg.wf(),
        ox <= MAX_COORD,
        oy <= MAX_COORD,
        -(FP as i64) <= dx <= (FP as i64),
        -(FP as i64) <= dy <= (FP as i64),
    ensures
        r.steps == first_hit(
            grid_view(maze),
            ox as int,
            oy as int,
            dx as int,
            dy as int,
            cfg.block_size * FP,
            cfg.step as int,
            cfg.max_steps as nat,
        ),
        r.steps <= cfg.max_steps,
        r.distance == r.steps * cfg.step,
        r.distance <= MAX_DIST,
        forall|j: int|
            0 <= j < r.steps ==> !(#[trigger] ray_hits_at_step(
                grid_view(maze),
                ox as int,
                oy as int,
                dx as int,
                dy as int,
                cfg.block_size * FP,
                cfg.step as int,
                j,
            )),
        r.steps < cfg.max_steps ==> ray_hits_at(
            grid_view(maze),
            ox as int,
            oy as int,
            dx as int,
            dy as int,
            cfg.block_size * FP,
            r.distance as int,
        ),
        r.steps < cfg.max_steps ==> r.kind == ray_cell_at(
            grid_view(maze),
            ox as int,
            oy as int,
            dx as int,
            dy as int,
            cfg.block_size * FP,
            r.distance as int,
        ),
        r.steps == cfg.max_steps ==> r.kind == BOUNDARY_CELL,
        blocks(r.kind),
        r.tangent == tangent_at(
            sample_coord(ox as int, dx as int, r.distance as int),
            sample_coord(oy as int, dy as int, r.distance as int),
            dx as int,
            dy as int,
            cfg.block_size * FP,
        ),
        r.tangent < FP,
{
    let cell_fp = cfg.block_size * FP;
    let ghost gv = grid_view(maze);
    let ghost cf = cell_fp as int;
    let mut k: u64 = 0;
    while k < cfg.max_steps
        invariant
            maze_wf(grid_view(maze)),
            cfg.wf(),
            ox <= MAX_COORD,
            oy <= MAX_COORD,
            -(FP as i64) <= dx <= (FP as i64),
            -(FP as i64) <= dy <= (FP as i64),
            cell_fp == cfg.block_size * FP,
            gv == grid_view(maze),
            cf == cell_fp as int,
            k <= cfg.max_steps,
            forall|j: int|
                0 <= j < k ==> !(#[trigger] ray_hits_at_step(
                    gv,
                    ox as int,
                    oy as int,
                    dx as int,
                    dy as int,
                    cf,
                    cfg.step as int,
                    j,
                )),
            first_hit(
                gv,
                ox as int,
                oy as int,
                dx as int,
                dy as int,
                cf,
                cfg.step as int,
                cfg.max_steps as nat,
            ) == first_hit_from(
                gv,
                ox as int,
                oy as int,
                dx as int,
                dy as int,
                cf,
                cfg.step as int,
                k as nat,
                cfg.max_steps as nat,
            ),
        decreases cfg.max_steps - k,
    {
        proof {
            lemma_mul_nonnegative(k as int, cfg.step as int);
            lemma_mul_inequality(k as int, cfg.max_steps as int, cfg.step as int);
        }
        let d = k * cfg.step;
        let sx = sample_coord_exec(ox, dx, d);
        let sy = sample_coord_exec(oy, dy, d);
        match (sx, sy) {
            (Some(x), Some(y)) => {
                let col = x / cell_fp;
                let row = y / cell_fp;
                proof {
                    assert(gv.len() == maze@.len());
                    assert(gv[0] == maze@[0]@);
                }
                let out_of_grid: bool = row >= maze.len() as u64 || col >= maze[0].len() as u64;
                if out_of_grid {
                    let t = tangent_exec(x, y, dx, dy, cell_fp);
                    proof {
                        assert(ray_hits_at(gv, ox as int, oy as int, dx as int, dy as int, cf, d as int));
                        assert(ray_cell_at(gv, ox as int, oy as int, dx as int, dy as int, cf, d as int)
                            == BOUNDARY_CELL);
                    }
                    return RayHit { steps: k, distance: d, kind: BOUNDARY_CELL, tangent: t };
                }
                proof {
                    assert(gv[row as int] == maze@[row as int]@);
                    assert(gv[row as int].len() == gv[0].len());
                }
                let c = maze[row as usize][col as usize];
                if c != ' ' && c != 'g' {
                    let t = tangent_exec(x, y, dx, dy, cell_fp);
                    proof {
                        assert(blocks(gv[row as int][col as int]));
                        assert(ray_hits_at(gv, ox as int, oy as int, dx as int, dy as int, cf, d as int));
                    }
                    return RayHit { steps: k, distance: d, kind: c, tangent: t };
                }
                proof {
                    assert(!ray_hits_at(gv, ox as int, oy as int, dx as int, dy as int, cf, d as int));
                    assert(d as int == (k as int) * (cfg.step as int));
                    assert(first_hit_from(
                        gv, ox as int, oy as int, dx as int, dy as int, cf,
                        cfg.step as int, k as nat, cfg.max_steps as nat,
                    ) == first_hit_from(
                        gv, ox as int, oy as int, dx as int, dy as int, cf,
                        cfg.step as int, (k + 1) as nat, cfg.max_steps as nat,
                    ));
                }
            },
            _ => {
                proof {
                    assert(ray_hits_at(gv, ox as int, oy as int, dx as int, dy as int, cf, d as int));
                }
                return RayHit { steps: k, distance: d, kind: BOUNDARY_CELL, tangent: 0 };
            },
        }
        k = k + 1;
    }
    proof {
        lemma_mul_nonnegative(k as int, cfg.step as int);
        lemma_mul_inequality(k as int, cfg.max_steps as int, cfg.step as int);
    }
    let d = k * cfg.step;
    let sx = sample_coord_exec(ox, dx, d);
    let sy = sample_coord_exec(oy, dy, d);
    let t = match (sx, sy) {
        (Some(x), Some(y)) => tangent_exec(x, y, dx, dy, cell_fp),
        _ => 0,
    };
    RayHit { steps: k, distance: d, kind: BOUNDARY_CELL, tangent: t }
}

/// The angle of one screen column's ray, in fixed-point radians: the
/// heading swept from half the field of view left of the view axis, in
/// `n` equal steps across the screen.
pub fn ray_angle(a: i64, fov: i64, i: u64, n: u64) -> (r: i64)
    requires
        -(TWO_PI_FP as int) <= a <= TWO_PI_FP as int,
        0 < fov <= TWO_PI_FP as int,
        1 <= n <= 32768,
        i <= n,
    ensures
        r == a - (fov as int) / 2 + ((fov as int) * (i as int)) / (n as int),
        -2 * (TWO_PI_FP as int) <= r <= 2 * (TWO_PI_FP as int),
{
    let fu = fov as u64;
    proof {
        assert((fu as int) * (i as int) <= 0x2000_0000_0000) by (nonlinear_arith)
            requires 0 <= (fu as int) <= 0x10_0000 && 0 <= (i as int) <= 32768;
        crate::fixed::lemma_scale_le(fu as int, i as int, n as int);
        assert(((fu as int) * (i as int)) / (n as int) <= (fu as int) * (i as int)) by {
            vstd::arithmetic::div_mod::lemma_div_nonincreasing(
                (fu as int) * (i as int),
                n as int,
            );
        };
    }
    let half = (fu / 2) as i64;
    let sweep = ((fu * i) / n) as i64;
    a - half + sweep
}

/// The fisheye correction: scales a raw marched distance by the cosine of
/// the ray's angular offset from the view axis (fixed-point, at most one)
/// so that projected wall heights do not bow outward at the screen edges.
pub fn corrected_distance(d: u64, cos_fp: u64) -> (r: u64)
    requires
        d <= MAX_DIST,
        cos_fp <= FP,
    ensures
        r == (d as int) * (cos_fp as int) / (FP as int),
        r <= d,
{
    proof {
        assert((d as int) * (cos_fp as int) <= 0x4000_0000_0000) by (nonlinear_arith)
            requires 0 <= (d as int) <= 0x4000_0000 && 0 <= (cos_fp as int) <= 0x10000;
        lemma_scale_le(d as int, cos_fp as int, FP as int);
    }
    d * cos_fp / FP
}

/// A ray cast along the view axis keeps its raw distance: with cosine one
/// the corrected distance equals the marched distance exactly.
pub proof fn lemma_corrected_identity(d: int)
    requires
        0 <= d,
    ensures
        d * (FP as int) / (FP as int) == d,
{
    lemma_div_multiples_vanish(d, FP as int);
    assert(d * (FP as int) == (FP as int) * d) by (nonlinear_arith);
}

} // verus!

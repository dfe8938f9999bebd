//! The wall projector and the 2-D overview renderer.

use vstd::prelude::*;
use vstd::arithmetic::mul::{lemma_mul_inequality, lemma_mul_nonnegative};
use crate::atlas::TextureAtlas;
use crate::fixed::lemma_frac_lt;
use crate::framebuffer::{lemma_pixel_index_decompose, lemma_pixel_index_in_range, Framebuffer};
use crate::maze::{cell_color_spec, cell_to_color, grid_view, maze_wf, EMPTY_CELL};
use crate::player::Player;
use crate::maze::BOUNDARY_CELL;
use crate::raycast::{cast_ray, corrected_distance, first_hit, ray_cell_at, sample_coord, tangent_at};
use crate::texture::Texture;
use crate::{RenderConfig, FP, MAX_COORD, MAX_DIST};

verus! {

/// The flat color drawn above the wall strips.
pub const SKY_COLOR: u32 = 0x2B2E3D;

/// The flat color drawn below the wall strips.
pub const FLOOR_COLOR: u32 = 0x222530;

/// The color of the 2-D overview's player marker and ray fan.
pub const RAY_COLOR: u32 = 0xFFDDDD;

/// The depth-buffer sentinel that stands for "no wall yet"; farther than
/// every distance the geometry can produce.
pub const DEPTH_FAR: u64 = 0xFFFF_FFFF_FFFF_FFFF;

/// One screen column's ray: a unit direction, both components scaled by
/// `FP`, and the cosine (scaled by `FP`) of the ray's angular offset from
/// the view axis, for the fisheye correction.
#[derive(Clone, Copy)]
pub struct ColumnRay {
    pub dx: i64,
    pub dy: i64,
    pub cos_fp: u64,
}

/// Direction components no longer than one, cosine at most one.
pub open spec fn column_ray_wf(ray: ColumnRay) -> bool {
    &&& -(FP as int) <= ray.dx <= FP as int
    &&& -(FP as int) <= ray.dy <= FP as int
    &&& ray.cos_fp <= FP
}

/// The corrected distance one column's cast produces: the raw marched
/// distance of the first hit, scaled by the column's cosine.
pub open spec fn column_depth(
    m: Seq<Seq<char>>,
    ox: int,
    oy: int,
    ray: ColumnRay,
    cfg: RenderConfig,
) -> int {
    let steps = first_hit(
        m,
        ox,
        oy,
        ray.dx as int,
        ray.dy as int,
        cfg.block_size * FP,
        cfg.step as int,
        cfg.max_steps as nat,
    );
    (steps * cfg.step) * (ray.cos_fp as int) / (FP as int)
}

/// A fresh depth buffer: one sentinel entry per screen column.
pub fn new_z_buffer(width: usize) -> (z: Vec<u64>)
    ensures
        z@.len() == width,
        forall|i: int| 0 <= i < z@.len() ==> z@[i] == DEPTH_FAR,
{
    let mut z: Vec<u64> = Vec::new();
    while z.len() < width
        invariant
            z@.len() <= width,
            forall|i: int| 0 <= i < z@.len() ==> z@[i] == DEPTH_FAR,
        decreases width - z.len(),
    {
        z.push(DEPTH_FAR);
    }
    z
}

/// The color of row `row` in a wall column drawn with texture `tex`,
/// tangent offset `tangent` and corrected distance `corr`: the textured
/// strip, sized inversely to the distance and clipped to the surface,
/// over a sky half and a floor half.
pub open spec fn wall_column_pixel(
    tex: Texture,
    tangent: int,
    corr: int,
    h: int,
    cfg: RenderConfig,
    row: int,
) -> u32 {
    let hh = h / 2;
    let dd = if corr == 0 { 1int } else { corr };
    let stake = hh * cfg.proj_dist * FP / dd;
    let half = stake / 2;
    let top = if half > hh { 0int } else { hh - half };
    let bottom = if hh + half < h { hh + half } else { h };
    if top <= row < bottom {
        tex.pixel_spec(
            tangent * tex.width / (FP as int),
            (row - top) * tex.height / (bottom - top),
        )
    } else if row < hh {
        SKY_COLOR
    } else {
        FLOOR_COLOR
    }
}

/// The color row `row` of screen column `ray` takes in the first-person
/// view: the ray's first hit picks the texture, the tangent offset and
/// the corrected distance, and the strip geometry follows from them.
pub open spec fn column_pixel_spec(
    m: Seq<Seq<char>>,
    ox: int,
    oy: int,
    ray: ColumnRay,
    atlas: TextureAtlas,
    cfg: RenderConfig,
    h: int,
    row: int,
) -> u32 {
    let cell_fp = cfg.block_size * FP;
    let steps = first_hit(
        m,
        ox,
        oy,
        ray.dx as int,
        ray.dy as int,
        cell_fp,
        cfg.step as int,
        cfg.max_steps as nat,
    );
    let dist = steps * cfg.step;
    let kind = if steps < cfg.max_steps {
        ray_cell_at(m, ox, oy, ray.dx as int, ray.dy as int, cell_fp, dist)
    } else {
        BOUNDARY_CELL
    };
    let tangent = tangent_at(
        sample_coord(ox, ray.dx as int, dist),
        sample_coord(oy, ray.dy as int, dist),
        ray.dx as int,
        ray.dy as int,
        cell_fp,
    );
    let corr = dist * ray.cos_fp / (FP as int);
    wall_column_pixel(atlas.spec_texture(kind), tangent, corr, h, cfg, row)
}

/// Paints one screen column of the first-person view: sky above, floor
/// below, and the texture-mapped wall strip whose height is inversely
/// proportional to the corrected distance. Every buffer position of
/// column `i` takes exactly the color `wall_column_pixel` gives its row;
/// every other position keeps its value.
#[verifier::rlimit(60)]
fn render_wall_column(
    fb: &mut Framebuffer,
    i: usize,
    corr: u64,
    kind: char,
    tangent: u64,
    atlas: &TextureAtlas,
    cfg: &RenderConfig,
)
    requires
        old(fb).wf(),
        i < old(fb).width,
        atlas.wf(),
        tangent < FP,
        cfg.wf(),
        corr <= MAX_DIST,
    ensures
        final(fb).wf(),
        final(fb).width == old(fb).width,
        final(fb).height == old(fb).height,
        final(fb).background_color == old(fb).background_color,
        final(fb).buffer@.len() == old(fb).buffer@.len(),
        forall|idx: int|
            0 <= idx < old(fb).buffer@.len() ==> final(fb).buffer@[idx] == (if idx % (old(
                fb,
            ).width as int) == i {
                wall_column_pixel(
                    atlas.spec_texture(kind),
                    tangent as int,
                    corr as int,
                    old(fb).height as int,
                    *cfg,
                    idx / (old(fb).width as int),
                )
            } else {
                old(fb).buffer@[idx]
            }),
{
    let ghost w = old(fb).width as int;
    let ghost h0 = old(fb).height as int;
    let ghost l0 = old(fb).buffer@.len() as int;
    let ghost buf0 = old(fb).buffer@;
    let ghost tex0 = atlas.spec_texture(kind);
    let hh = fb.height / 2;
    let dd: u64 = if corr == 0 { 1 } else { corr };
    let hh64 = hh as u64;
    proof {
        assert((hh64 as int) * (cfg.proj_dist as int) <= 0x4000_0000) by (nonlinear_arith)
            requires 0 <= (hh64 as int) <= 32768 && 0 <= (cfg.proj_dist as int) <= 32768;
    }
    let stake_height = hh64 * cfg.proj_dist * FP / dd;
    let half = stake_height / 2;
    let stake_top: u64 = if half > hh64 { 0 } else { hh64 - half };
    let stake_bottom: u64 = if hh64 + half < fb.height as u64 { hh64 + half } else {
        fb.height as u64
    };
    let ghost top = stake_top as int;
    let ghost bottom = stake_bottom as int;
    proof {
        assert(top == (if (half as int) > h0 / 2 { 0int } else { h0 / 2 - half }));
        assert(bottom == (if h0 / 2 + half < h0 { h0 / 2 + half } else { h0 }));
    }
    // Sky over the top half.
    fb.set_current_color(SKY_COLOR);
    let mut j: usize = 0;
    while j < hh
        invariant
            fb.wf(),
            fb.width as int == w,
            fb.height as int == h0,
            fb.background_color == old(fb).background_color,
            fb.current_color == SKY_COLOR,
            fb.buffer@.len() == l0,
            i < fb.width,
            hh == fb.height / 2,
            j <= hh,
            forall|idx: int|
                0 <= idx < l0 ==> fb.buffer@[idx] == (if idx % w == i && idx / w < j {
                    SKY_COLOR
                } else {
                    buf0[idx]
                }),
        decreases hh - j,
    {
        fb.point(i, j);
        proof {
            lemma_pixel_index_in_range(w, h0, i as int, j as int);
            lemma_pixel_index_decompose(w, i as int, j as int);
            assert forall|idx: int|
                0 <= idx < l0 && #[trigger] (idx % w) == i && idx / w
                    == j as int implies idx == (j as int) * w + (i as int) by {
                vstd::arithmetic::div_mod::lemma_fundamental_div_mod(idx, w);
                assert(w * (idx / w) == (idx / w) * w) by (nonlinear_arith);
            };
        }
        j = j + 1;
    }
    // Floor over the bottom half.
    fb.set_current_color(FLOOR_COLOR);
    let mut j: usize = hh;
    while j < fb.height
        invariant
            fb.wf(),
            fb.width as int == w,
            fb.height as int == h0,
            fb.background_color == old(fb).background_color,
            fb.current_color == FLOOR_COLOR,
            fb.buffer@.len() == l0,
            i < fb.width,
            hh == fb.height / 2,
            hh <= j <= fb.height,
            forall|idx: int|
                0 <= idx < l0 ==> fb.buffer@[idx] == (if idx % w == i && idx / w < hh as int {
                    SKY_COLOR
                } else if idx % w == i && hh as int <= idx / w < j {
                    FLOOR_COLOR
                } else {
                    buf0[idx]
                }),
        decreases fb.height - j,
    {
        fb.point(i, j);
        proof {
            lemma_pixel_index_in_range(w, h0, i as int, j as int);
            lemma_pixel_index_decompose(w, i as int, j as int);
            assert forall|idx: int|
                0 <= idx < l0 && #[trigger] (idx % w) == i && idx / w
                    == j as int implies idx == (j as int) * w + (i as int) by {
                vstd::arithmetic::div_mod::lemma_fundamental_div_mod(idx, w);
                assert(w * (idx / w) == (idx / w) * w) by (nonlinear_arith);
            };
        }
        j = j + 1;
    }
    proof {
        assert forall|idx: int| 0 <= idx < l0 implies 0 <= #[trigger] (idx / w) < h0 by {
            vstd::arithmetic::div_mod::lemma_multiply_divide_lt(idx, w, h0);
            vstd::arithmetic::div_mod::lemma_div_pos_is_pos(idx, w);
        };
    }
    // The wall strip, clipped to the surface.
    if stake_top >= stake_bottom {
        return ;
    }
    let span = stake_bottom - stake_top;
    let texture = atlas.texture_for(kind);
    proof {
        assert((tangent as int) * (texture.width as int) < 0x1_0000_0000_0000)
            by (nonlinear_arith)
            requires 0 <= (tangent as int) < 0x10000 && 0 <= (texture.width as int) <= 32768;
    }
    let tx64 = tangent * (texture.width as u64) / FP;
    let tx: u32 = if texture.width == 0 {
        proof {
            assert((tangent as int) * (texture.width as int) == 0) by (nonlinear_arith)
                requires (texture.width as int) == 0;
            vstd::arithmetic::div_mod::lemma_div_of0(FP as int);
        }
        0
    } else {
        proof {
            lemma_frac_lt(tangent as int, FP as int, texture.width as int);
        }
        tx64 as u32
    };
    proof {
        assert(*texture == tex0);
        assert(tx as int == tangent * tex0.width / (FP as int));
    }
    let mut y: u64 = stake_top;
    while y < stake_bottom
        invariant
            fb.wf(),
            fb.width as int == w,
            fb.height as int == h0,
            fb.background_color == old(fb).background_color,
            fb.buffer@.len() == l0,
            i < fb.width,
            hh == fb.height / 2,
            stake_top <= y <= stake_bottom,
            stake_bottom <= fb.height as u64,
            top == stake_top as int,
            bottom == stake_bottom as int,
            span == stake_bottom - stake_top,
            span >= 1,
            *texture == tex0,
            texture.wf(),
            tx as int == tangent * tex0.width / (FP as int),
            forall|idx: int|
                0 <= idx < l0 ==> fb.buffer@[idx] == (if idx % w == i && top <= idx / w
                    < y as int {
                    tex0.pixel_spec(
                        tangent * tex0.width / (FP as int),
                        (idx / w - top) * tex0.height / (bottom - top),
                    )
                } else if idx % w == i && idx / w < hh as int {
                    SKY_COLOR
                } else if idx % w == i {
                    FLOOR_COLOR
                } else {
                    buf0[idx]
                }),
        decreases stake_bottom - y,
    {
        let rel = y - stake_top;
        proof {
            assert((rel as int) * (texture.height as int) < 0x1_0000_0000_0000)
                by (nonlinear_arith)
                requires
                    0 <= (rel as int) < (span as int),
                    (span as int) <= 32768,
                    0 <= (texture.height as int) <= 32768,
            ;
        }
        let ty64 = rel * (texture.height as u64) / span;
        let ty: u32 = if texture.height == 0 {
            0
        } else {
            proof {
                lemma_frac_lt(rel as int, span as int, texture.height as int);
            }
            ty64 as u32
        };
        let color = texture.get_pixel_color(tx, ty);
        fb.set_current_color(color);
        fb.point(i, y as usize);
        proof {
            lemma_pixel_index_in_range(w, h0, i as int, y as int);
            lemma_pixel_index_decompose(w, i as int, y as int);
            assert forall|idx: int|
                0 <= idx < l0 && #[trigger] (idx % w) == i && idx / w
                    == y as int implies idx == (y as int) * w + (i as int) by {
                vstd::arithmetic::div_mod::lemma_fundamental_div_mod(idx, w);
                assert(w * (idx / w) == (idx / w) * w) by (nonlinear_arith);
            };
            assert forall|idx: int| 0 <= idx < l0 implies 0 <= #[trigger] (idx / w) < h0 by {
                vstd::arithmetic::div_mod::lemma_multiply_divide_lt(idx, w, h0);
                vstd::arithmetic::div_mod::lemma_div_pos_is_pos(idx, w);
            };
        }
        y = y + 1;
    }
}

/// The first-person view: one ray per screen column, walls drawn as
/// vertical strips over a sky and a floor half, each pixel exactly the
/// color its column's cast gives it, and the depth buffer set to each
/// column's corrected distance — finite (at most `MAX_DIST`, below the
/// sentinel) for every column.
pub fn render3d(
    fb: &mut Framebuffer,
    maze: &Vec<Vec<char>>,
    player: &Player,
    rays: &Vec<ColumnRay>,
    z_buffer: &mut Vec<u64>,
    atlas: &TextureAtlas,
    cfg: &RenderConfig,
)
    requires
        old(fb).wf(),
        maze_wf(grid_view(maze)),
        player.wf(),
        atlas.wf(),
        cfg.wf(),
        rays@.len() == old(fb).width,
        old(z_buffer)@.len() == old(fb).width,
        forall|i: int| 0 <= i < rays@.len() ==> column_ray_wf(#[trigger] rays@[i]),
    ensures
        final(fb).wf(),
        final(fb).width == old(fb).width,
        final(fb).height == old(fb).height,
        final(fb).background_color == old(fb).background_color,
        final(fb).buffer@.len() == old(fb).buffer@.len(),
        final(z_buffer)@.len() == old(z_buffer)@.len(),
        forall|i: int|
            0 <= i < rays@.len() ==> final(z_buffer)@[i] == column_depth(
                grid_view(maze),
                player.x as int,
                player.y as int,
                rays@[i],
                *cfg,
            ),
        forall|i: int| 0 <= i < rays@.len() ==> final(z_buffer)@[i] <= MAX_DIST,
        forall|i: int| 0 <= i < rays@.len() ==> final(z_buffer)@[i] < DEPTH_FAR,
        forall|i: int, row: int|
            0 <= i < rays@.len() && 0 <= row < old(fb).height ==> final(fb).buffer@[row * (old(
                fb,
            ).width as int) + i] == #[trigger] column_pixel_spec(
                grid_view(maze),
                player.x as int,
                player.y as int,
                rays@[i],
                *atlas,
                *cfg,
                old(fb).height as int,
                row,
            ),
{
    let ghost w0 = old(fb).width;
    let ghost wi = old(fb).width as int;
    let ghost h0 = old(fb).height as int;
    let ghost l0 = old(fb).buffer@.len() as int;
    let ghost buf0 = old(fb).buffer@;
    let width = fb.width;
    let mut i: usize = 0;
    while i < width
        invariant
            fb.wf(),
            fb.width == w0,
            fb.height == old(fb).height,
            fb.background_color == old(fb).background_color,
            fb.buffer@.len() == old(fb).buffer@.len(),
            width == w0,
            wi == w0 as int,
            h0 == old(fb).height as int,
            l0 == old(fb).buffer@.len() as int,
            buf0 == old(fb).buffer@,
            i <= width,
            maze_wf(grid_view(maze)),
            player.wf(),
            atlas.wf(),
            cfg.wf(),
            rays@.len() == w0,
            z_buffer@.len() == w0,
            forall|j: int| 0 <= j < rays@.len() ==> column_ray_wf(#[trigger] rays@[j]),
            forall|j: int|
                0 <= j < i ==> z_buffer@[j] == column_depth(
                    grid_view(maze),
                    player.x as int,
                    player.y as int,
                    rays@[j],
                    *cfg,
                ),
            forall|j: int| 0 <= j < i ==> z_buffer@[j] <= MAX_DIST,
            forall|idx: int|
                0 <= idx < l0 ==> fb.buffer@[idx] == (if idx % wi < i {
                    column_pixel_spec(
                        grid_view(maze),
                        player.x as int,
                        player.y as int,
                        rays@[idx % wi],
                        *atlas,
                        *cfg,
                        h0,
                        idx / wi,
                    )
                } else {
                    buf0[idx]
                }),
        decreases width - i,
    {
        let ray = &rays[i];
        let hit = cast_ray(maze, player.x, player.y, ray.dx, ray.dy, cfg);
        let corr = corrected_distance(hit.distance, ray.cos_fp);
        proof {
            assert(corr as int == column_depth(
                grid_view(maze),
                player.x as int,
                player.y as int,
                rays@[i as int],
                *cfg,
            ));
        }
        z_buffer[i] = corr;
        render_wall_column(fb, i, corr, hit.kind, hit.tangent, atlas, cfg);
        proof {
            assert forall|idx: int| 0 <= idx < l0 && #[trigger] (idx % wi) == i implies fb.buffer@[idx]
                == column_pixel_spec(
                grid_view(maze),
                player.x as int,
                player.y as int,
                rays@[i as int],
                *atlas,
                *cfg,
                h0,
                idx / wi,
            ) by {
                assert(wall_column_pixel(
                    atlas.spec_texture(hit.kind),
                    hit.tangent as int,
                    corr as int,
                    h0,
                    *cfg,
                    idx / wi,
                ) == column_pixel_spec(
                    grid_view(maze),
                    player.x as int,
                    player.y as int,
                    rays@[i as int],
                    *atlas,
                    *cfg,
                    h0,
                    idx / wi,
                ));
            };
        }
        i = i + 1;
    }
    proof {
        assert forall|i: int, row: int|
            0 <= i < rays@.len() && 0 <= row < h0 implies fb.buffer@[row * wi + i]
                == #[trigger] column_pixel_spec(
                grid_view(maze),
                player.x as int,
                player.y as int,
                rays@[i],
                *atlas,
                *cfg,
                h0,
                row,
            ) by {
            lemma_pixel_index_in_range(wi, h0, i, row);
            lemma_pixel_index_decompose(wi, i, row);
        };
    }
}

/// Fills the axis-aligned rectangle of `wdt` x `hgt` pixels at
/// `(xo, yo)` with one color: every buffer position inside both the
/// rectangle and the surface takes the color, every other position keeps
/// its value.
pub fn fill_rect(fb: &mut Framebuffer, xo: usize, yo: usize, wdt: usize, hgt: usize, color: u32)
    requires
        old(fb).wf(),
        xo + wdt < 0x8000_0000,
        yo + hgt < 0x8000_0000,
    ensures
        final(fb).wf(),
        final(fb).width == old(fb).width,
        final(fb).height == old(fb).height,
        final(fb).background_color == old(fb).background_color,
        final(fb).current_color == color,
        final(fb).buffer@.len() == old(fb).buffer@.len(),
        forall|idx: int|
            0 <= idx < old(fb).buffer@.len() ==> final(fb).buffer@[idx] == (if xo <= idx % (old(
                fb,
            ).width as int) < xo + wdt && yo <= idx / (old(fb).width as int) < yo + hgt {
                color
            } else {
                old(fb).buffer@[idx]
            }),
{
    fb.set_current_color(color);
    let ghost w = old(fb).width as int;
    let ghost h = old(fb).height as int;
    let ghost len = old(fb).buffer@.len() as int;
    let ghost buf0 = old(fb).buffer@;
    let x_end = xo + wdt;
    let y_end = yo + hgt;
    let mut x = xo;
    while x < x_end
        invariant
            fb.wf(),
            fb.width == old(fb).width,
            fb.height == old(fb).height,
            fb.background_color == old(fb).background_color,
            fb.current_color == color,
            fb.buffer@.len() == old(fb).buffer@.len(),
            w == old(fb).width as int,
            h == old(fb).height as int,
            len == old(fb).buffer@.len() as int,
            buf0 == old(fb).buffer@,
            xo <= x <= x_end,
            x_end == xo + wdt,
            y_end == yo + hgt,
            forall|idx: int|
                0 <= idx < len ==> fb.buffer@[idx] == (if xo <= idx % w < x && yo <= idx / w
                    < y_end {
                    color
                } else {
                    buf0[idx]
                }),
        decreases x_end - x,
    {
        let mut y = yo;
        while y < y_end
            invariant
                fb.wf(),
                fb.width == old(fb).width,
                fb.height == old(fb).height,
                fb.background_color == old(fb).background_color,
                fb.current_color == color,
                fb.buffer@.len() == old(fb).buffer@.len(),
                w == old(fb).width as int,
                h == old(fb).height as int,
                len == old(fb).buffer@.len() as int,
                buf0 == old(fb).buffer@,
                xo <= x < x_end,
                yo <= y <= y_end,
                x_end == xo + wdt,
                y_end == yo + hgt,
                forall|idx: int|
                    0 <= idx < len ==> fb.buffer@[idx] == (if (xo <= idx % w < x && yo <= idx / w
                        < y_end) || (idx % w == x && yo <= idx / w < y) {
                        color
                    } else {
                        buf0[idx]
                    }),
            decreases y_end - y,
        {
            fb.point(x, y);
            proof {
                if x < fb.width && y < fb.height {
                    lemma_pixel_index_in_range(w, h, x as int, y as int);
                    lemma_pixel_index_decompose(w, x as int, y as int);
                    assert forall|idx: int|
                        0 <= idx < len && #[trigger] (idx % w) == x as int && idx / w
                            == y as int implies idx == (y as int) * w + (x as int) by {
                        vstd::arithmetic::div_mod::lemma_fundamental_div_mod(idx, w);
                        assert(w * (idx / w) == (idx / w) * w) by (nonlinear_arith);
                    };
                } else if x >= fb.width {
                    assert forall|idx: int| 0 <= idx < len implies #[trigger] (idx % w) != x as int by {
                        vstd::arithmetic::div_mod::lemma_mod_division_less_than_divisor(idx, w);
                    };
                } else {
                    assert forall|idx: int| 0 <= idx < len implies #[trigger] (idx / w) != y as int by {
                        vstd::arithmetic::div_mod::lemma_multiply_divide_lt(idx, w, h);
                    };
                }
            }
            y = y + 1;
        }
        x = x + 1;
    }
}

/// Paints one maze cell of the 2-D overview as a square of the cell's
/// flat color; an empty cell leaves the surface untouched. Every buffer
/// position inside both the square and the surface takes the cell color;
/// every other position keeps its value.
pub fn draw_cell(fb: &mut Framebuffer, xo: usize, yo: usize, block_size: usize, cell: char)
    requires
        old(fb).wf(),
        xo + block_size < 0x8000_0000,
        yo + block_size < 0x8000_0000,
    ensures
        final(fb).wf(),
        final(fb).width == old(fb).width,
        final(fb).height == old(fb).height,
        final(fb).background_color == old(fb).background_color,
        final(fb).buffer@.len() == old(fb).buffer@.len(),
        final(fb).current_color == (if cell == EMPTY_CELL {
            old(fb).current_color
        } else {
            cell_color_spec(cell)
        }),
        forall|idx: int|
            0 <= idx < old(fb).buffer@.len() ==> final(fb).buffer@[idx] == (
            if cell != EMPTY_CELL && xo <= idx % (old(fb).width as int) < xo + block_size && yo
                <= idx / (old(fb).width as int) < yo + block_size {
                cell_color_spec(cell)
            } else {
                old(fb).buffer@[idx]
            }),
{
    if cell == EMPTY_CELL {
        return ;
    }
    let color = cell_to_color(cell);
    fill_rect(fb, xo, yo, block_size, block_size, color);
}

/// A free sample of an overview ray is painted: for every march step
/// strictly before the ray's first hit, the sample's screen pixel (its
/// world position scaled down to whole pixels), when it lies on the
/// surface, holds the ray color.
pub open spec fn ray_sample_painted(
    m: Seq<Seq<char>>,
    buf: Seq<u32>,
    w: int,
    h: int,
    ox: int,
    oy: int,
    dx: int,
    dy: int,
    cfg: RenderConfig,
    k: int,
) -> bool {
    let d = k * cfg.step;
    let x = sample_coord(ox, dx, d);
    let y = sample_coord(oy, dy, d);
    0 <= k < first_hit(
        m,
        ox,
        oy,
        dx,
        dy,
        cfg.block_size * FP,
        cfg.step as int,
        cfg.max_steps as nat,
    ) && x >= 0 && y >= 0 && x / (FP as int) < w && y / (FP as int) < h ==> buf[(y / (
    FP as int)) * w + (x / (FP as int))] == RAY_COLOR
}

/// Marches one ray of the 2-D overview fan, painting each free sample
/// point in the ray color; it stops at the first blocked sample, exactly
/// where the caster stops, so every on-surface sample pixel before the
/// hit holds the ray color.
pub fn draw_ray(maze: &Vec<Vec<char>>, fb: &mut Framebuffer, ox: u64, oy: u64, dx: i64, dy: i64, cfg: &RenderConfig)
    requires
        old(fb).wf(),
        maze_wf(grid_view(maze)),
        cfg.wf(),
        ox <= MAX_COORD,
        oy <= MAX_COORD,
        -(FP as i64) <= dx <= (FP as i64),
        -(FP as i64) <= dy <= (FP as i64),
    ensures
        final(fb).wf(),
        final(fb).width == old(fb).width,
        final(fb).height == old(fb).height,
        final(fb).background_color == old(fb).background_color,
        final(fb).buffer@.len() == old(fb).buffer@.len(),
        final(fb).current_color == RAY_COLOR,
        forall|idx: int|
            0 <= idx < old(fb).buffer@.len() && final(fb).buffer@[idx] != old(fb).buffer@[idx]
                ==> final(fb).buffer@[idx] == RAY_COLOR,
        forall|k: int|
            #[trigger] ray_sample_painted(
                grid_view(maze),
                final(fb).buffer@,
                old(fb).width as int,
                old(fb).height as int,
                ox as int,
                oy as int,
                dx as int,
                dy as int,
                *cfg,
                k,
            ),
{
    let ghost gv = grid_view(maze);
    let ghost wi = old(fb).width as int;
    let ghost hi = old(fb).height as int;
    fb.set_current_color(RAY_COLOR);
    let hit = cast_ray(maze, ox, oy, dx, dy, cfg);
    let mut k: u64 = 0;
    while k < hit.steps
        invariant
            fb.wf(),
            fb.width == old(fb).width,
            fb.height == old(fb).height,
            fb.background_color == old(fb).background_color,
            fb.buffer@.len() == old(fb).buffer@.len(),
            fb.current_color == RAY_COLOR,
            gv == grid_view(maze),
            wi == old(fb).width as int,
            hi == old(fb).height as int,
            maze_wf(grid_view(maze)),
            cfg.wf(),
            ox <= MAX_COORD,
            oy <= MAX_COORD,
            -(FP as i64) <= dx <= (FP as i64),
            -(FP as i64) <= dy <= (FP as i64),
            k <= hit.steps,
            hit.steps <= cfg.max_steps,
            hit.steps == first_hit(
                gv,
                ox as int,
                oy as int,
                dx as int,
                dy as int,
                cfg.block_size * FP,
                cfg.step as int,
                cfg.max_steps as nat,
            ),
            forall|idx: int|
                0 <= idx < old(fb).buffer@.len() && fb.buffer@[idx] != old(fb).buffer@[idx]
                    ==> fb.buffer@[idx] == RAY_COLOR,
            forall|j: int|
                0 <= j < k ==> #[trigger] ray_sample_painted(
                    gv,
                    fb.buffer@,
                    wi,
                    hi,
                    ox as int,
                    oy as int,
                    dx as int,
                    dy as int,
                    *cfg,
                    j,
                ),
        decreases hit.steps - k,
    {
        proof {
            lemma_mul_nonnegative(k as int, cfg.step as int);
            lemma_mul_inequality(k as int, cfg.max_steps as int, cfg.step as int);
        }
        let d = k * cfg.step;
        let sx = crate::raycast::sample_coord_exec(ox, dx, d);
        let sy = crate::raycast::sample_coord_exec(oy, dy, d);
        match (sx, sy) {
            (Some(x), Some(y)) => {
                proof {
                    vstd::arithmetic::div_mod::lemma_div_is_ordered(
                        x as int,
                        0x8000_0000,
                        FP as int,
                    );
                    vstd::arithmetic::div_mod::lemma_div_is_ordered(
                        y as int,
                        0x8000_0000,
                        FP as int,
                    );
                }
                let px = x / FP;
                let py = y / FP;
                let ghost prev = fb.buffer@;
                fb.point(px as usize, py as usize);
                proof {
                    if (px as usize) < fb.width && (py as usize) < fb.height {
                        lemma_pixel_index_in_range(wi, hi, px as int, py as int);
                    }
                    assert forall|j: int|
                        0 <= j < k as int + 1 implies ray_sample_painted(
                        gv,
                        fb.buffer@,
                        wi,
                        hi,
                        ox as int,
                        oy as int,
                        dx as int,
                        dy as int,
                        *cfg,
                        j,
                    ) by {
                        let dj = j * (cfg.step as int);
                        let xj = sample_coord(ox as int, dx as int, dj);
                        let yj = sample_coord(oy as int, dy as int, dj);
                        if xj >= 0 && yj >= 0 && xj / (FP as int) < wi && yj / (FP as int)
                            < hi {
                            lemma_pixel_index_in_range(wi, hi, xj / (FP as int), yj / (
                            FP as int));
                            if j < k as int {
                                assert(ray_sample_painted(
                                    gv,
                                    prev,
                                    wi,
                                    hi,
                                    ox as int,
                                    oy as int,
                                    dx as int,
                                    dy as int,
                                    *cfg,
                                    j,
                                ));
                            }
                        }
                    };
                }
            },
            _ => {},
        }
        k = k + 1;
    }
}

/// The color the overview's cell pass leaves at screen position
/// `(px, py)`: the containing grid cell's flat overview color when that
/// cell exists and is not open floor, the old pixel otherwise.
pub open spec fn overview_base_pixel(
    m: Seq<Seq<char>>,
    block: int,
    oldbuf: Seq<u32>,
    w: int,
    px: int,
    py: int,
) -> u32 {
    if block >= 1 && 0 <= py / block < m.len() && 0 <= px / block < m[0].len() && m[py / block][px
        / block] != EMPTY_CELL {
        cell_color_spec(m[py / block][px / block])
    } else {
        oldbuf[py * w + px]
    }
}

/// The screen position lies in a non-empty grid cell already painted by
/// the overview's cell pass, whose bound is `(rowb, colb)`.
pub open spec fn overview_cell_done(
    m: Seq<Seq<char>>,
    block: int,
    rowb: int,
    colb: int,
    px: int,
    py: int,
) -> bool {
    let c = px / block;
    let r = py / block;
    &&& block >= 1
    &&& 0 <= r < m.len()
    &&& 0 <= c < m[0].len()
    &&& (r < rowb || (r == rowb && c < colb))
    &&& m[r][c] != EMPTY_CELL
}

/// The 2-D overview: the grid drawn cell by cell in its flat colors, the
/// player marker, and a reduced-density fan of rays showing what the
/// player sees. Every pixel ends as the cell pass left it unless the
/// marker or the fan overdrew it in the ray color; every on-surface free
/// sample of every fan ray, and the player marker, hold the ray color.
pub fn render2d(
    fb: &mut Framebuffer,
    maze: &Vec<Vec<char>>,
    player: &Player,
    dirs: &Vec<(i64, i64)>,
    cfg: &RenderConfig,
)
    requires
        old(fb).wf(),
        maze_wf(grid_view(maze)),
        grid_view(maze).len() <= 32768,
        grid_view(maze)[0].len() <= 32768,
        player.wf(),
        cfg.wf(),
        forall|i: int|
            0 <= i < dirs@.len() ==> -(FP as int) <= (#[trigger] dirs@[i]).0 <= FP as int
                && -(FP as int) <= dirs@[i].1 <= FP as int,
    ensures
        final(fb).wf(),
        final(fb).width == old(fb).width,
        final(fb).height == old(fb).height,
        final(fb).background_color == old(fb).background_color,
        final(fb).buffer@.len() == old(fb).buffer@.len(),
        forall|px: int, py: int|
            0 <= px < old(fb).width && 0 <= py < old(fb).height ==> final(fb).buffer@[py * (old(
                fb,
            ).width as int) + px] == RAY_COLOR || final(fb).buffer@[py * (old(fb).width as int)
                + px] == #[trigger] overview_base_pixel(
                grid_view(maze),
                cfg.block_size as int,
                old(fb).buffer@,
                old(fb).width as int,
                px,
                py,
            ),
        forall|r: int, k: int|
            0 <= r < dirs@.len() ==> #[trigger] ray_sample_painted(
                grid_view(maze),
                final(fb).buffer@,
                old(fb).width as int,
                old(fb).height as int,
                player.x as int,
                player.y as int,
                dirs@[r].0 as int,
                dirs@[r].1 as int,
                *cfg,
                k,
            ),
        (player.x as int) / (FP as int) < old(fb).width && (player.y as int) / (FP as int)
            < old(fb).height ==> final(fb).buffer@[((player.y as int) / (FP as int)) * (old(
            fb,
        ).width as int) + (player.x as int) / (FP as int)] == RAY_COLOR,
{
    let ghost gv = grid_view(maze);
    let ghost wi = old(fb).width as int;
    let ghost hi = old(fb).height as int;
    let ghost old_buf = old(fb).buffer@;
    let ghost blocki = cfg.block_size as int;
    let block = cfg.block_size as usize;
    let rows = maze.len();
    let mut row: usize = 0;
    while row < rows
        invariant
            fb.wf(),
            fb.width == old(fb).width,
            fb.height == old(fb).height,
            fb.background_color == old(fb).background_color,
            fb.buffer@.len() == old(fb).buffer@.len(),
            gv == grid_view(maze),
            wi == old(fb).width as int,
            hi == old(fb).height as int,
            old_buf == old(fb).buffer@,
            blocki == cfg.block_size as int,
            maze_wf(gv),
            gv.len() <= 32768,
            gv[0].len() <= 32768,
            cfg.wf(),
            block == cfg.block_size,
            rows == maze@.len(),
            row <= rows,
            forall|idx: int|
                0 <= idx < old_buf.len() ==> fb.buffer@[idx] == (if overview_cell_done(
                    gv,
                    blocki,
                    row as int,
                    0,
                    idx % wi,
                    idx / wi,
                ) {
                    cell_color_spec(gv[(idx / wi) / blocki][(idx % wi) / blocki])
                } else {
                    old_buf[idx]
                }),
        decreases rows - row,
    {
        proof {
            assert(grid_view(maze)[row as int] == maze@[row as int]@);
            assert(grid_view(maze)[row as int].len() == grid_view(maze)[0].len());
        }
        let cols = maze[row].len();
        let mut col: usize = 0;
        while col < cols
            invariant
                fb.wf(),
                fb.width == old(fb).width,
                fb.height == old(fb).height,
                fb.background_color == old(fb).background_color,
                fb.buffer@.len() == old(fb).buffer@.len(),
                gv == grid_view(maze),
                wi == old(fb).width as int,
                hi == old(fb).height as int,
                old_buf == old(fb).buffer@,
                blocki == cfg.block_size as int,
                maze_wf(gv),
                gv.len() <= 32768,
                gv[0].len() <= 32768,
                cfg.wf(),
                block == cfg.block_size,
                row < maze@.len(),
                row < 32768,
                cols == maze@[row as int]@.len(),
                cols == gv[0].len(),
                cols <= 32768,
                col <= cols,
                forall|idx: int|
                    0 <= idx < old_buf.len() ==> fb.buffer@[idx] == (if overview_cell_done(
                        gv,
                        blocki,
                        row as int,
                        col as int,
                        idx % wi,
                        idx / wi,
                    ) {
                        cell_color_spec(gv[(idx / wi) / blocki][(idx % wi) / blocki])
                    } else {
                        old_buf[idx]
                    }),
            decreases cols - col,
        {
            proof {
                assert((col as int) * (block as int) < 0x4000_0000) by (nonlinear_arith)
                    requires 0 <= (col as int) < 32768 && 0 <= (block as int) <= 32768;
                assert((row as int) * (block as int) < 0x4000_0000) by (nonlinear_arith)
                    requires 0 <= (row as int) < 32768 && 0 <= (block as int) <= 32768;
            }
            let cell = maze[row][col];
            let x = col * block;
            let y = row * block;
            draw_cell(fb, x, y, block, cell);
            proof {
                assert(cell == gv[row as int][col as int]);
                assert forall|idx: int|
                    0 <= idx < old_buf.len() implies ((x as int <= #[trigger] (idx % wi) < x
                    + blocki && y as int <= idx / wi < y + blocki) <==> (blocki >= 1 && (idx
                    / wi) / blocki == row as int && (idx % wi) / blocki == col as int)) by {
                    let px = idx % wi;
                    let py = idx / wi;
                    if blocki >= 1 {
                        vstd::arithmetic::div_mod::lemma_div_pos_is_pos(idx, wi);
                        vstd::arithmetic::div_mod::lemma_mod_division_less_than_divisor(
                            idx,
                            wi,
                        );
                        if x as int <= px < x + blocki && y as int <= py < y + blocki {
                            vstd::arithmetic::div_mod::lemma_fundamental_div_mod_converse_div(
                                px,
                                blocki,
                                col as int,
                                px - (col as int) * blocki,
                            );
                            vstd::arithmetic::div_mod::lemma_fundamental_div_mod_converse_div(
                                py,
                                blocki,
                                row as int,
                                py - (row as int) * blocki,
                            );
                        }
                        if px / blocki == col as int && py / blocki == row as int {
                            vstd::arithmetic::div_mod::lemma_fundamental_div_mod(px, blocki);
                            vstd::arithmetic::div_mod::lemma_fundamental_div_mod(py, blocki);
                            assert(blocki * (px / blocki) == (px / blocki) * blocki)
                                by (nonlinear_arith);
                            assert(blocki * (py / blocki) == (py / blocki) * blocki)
                                by (nonlinear_arith);
                        }
                    }
                };
            }
            col = col + 1;
        }
        row = row + 1;
    }
    // The player marker.
    fb.set_current_color(RAY_COLOR);
    proof {
        vstd::arithmetic::div_mod::lemma_div_is_ordered(player.x as int, 0x4000_0000, FP as int);
        vstd::arithmetic::div_mod::lemma_div_is_ordered(player.y as int, 0x4000_0000, FP as int);
    }
    let dot_x = (player.x / FP) as usize;
    let dot_y = (player.y / FP) as usize;
    fb.point(dot_x, dot_y);
    proof {
        if dot_x < fb.width && dot_y < fb.height {
            lemma_pixel_index_in_range(wi, hi, dot_x as int, dot_y as int);
        }
    }
    // The ray fan.
    let n = dirs.len();
    let mut i: usize = 0;
    while i < n
        invariant
            fb.wf(),
            fb.width == old(fb).width,
            fb.height == old(fb).height,
            fb.background_color == old(fb).background_color,
            fb.buffer@.len() == old(fb).buffer@.len(),
            gv == grid_view(maze),
            wi == old(fb).width as int,
            hi == old(fb).height as int,
            old_buf == old(fb).buffer@,
            blocki == cfg.block_size as int,
            maze_wf(gv),
            player.wf(),
            cfg.wf(),
            n == dirs@.len(),
            i <= n,
            forall|j: int|
                0 <= j < dirs@.len() ==> -(FP as int) <= (#[trigger] dirs@[j]).0 <= FP as int
                    && -(FP as int) <= dirs@[j].1 <= FP as int,
            forall|idx: int|
                0 <= idx < old_buf.len() ==> fb.buffer@[idx] == RAY_COLOR || fb.buffer@[idx]
                    == (if overview_cell_done(
                    gv,
                    blocki,
                    gv.len() as int,
                    0,
                    idx % wi,
                    idx / wi,
                ) {
                    cell_color_spec(gv[(idx / wi) / blocki][(idx % wi) / blocki])
                } else {
                    old_buf[idx]
                }),
            (player.x as int) / (FP as int) < wi && (player.y as int) / (FP as int) < hi
                ==> fb.buffer@[((player.y as int) / (FP as int)) * wi + (player.x as int) / (
            FP as int)] == RAY_COLOR,
            forall|r: int, k: int|
                0 <= r < i ==> #[trigger] ray_sample_painted(
                    gv,
                    fb.buffer@,
                    wi,
                    hi,
                    player.x as int,
                    player.y as int,
                    dirs@[r].0 as int,
                    dirs@[r].1 as int,
                    *cfg,
                    k,
                ),
        decreases n - i,
    {
        let d = dirs[i];
        let ghost prev = fb.buffer@;
        draw_ray(maze, fb, player.x, player.y, d.0, d.1, cfg);
        proof {
            if (player.x as int) / (FP as int) < wi && (player.y as int) / (FP as int) < hi {
                lemma_pixel_index_in_range(
                    wi,
                    hi,
                    (player.x as int) / (FP as int),
                    (player.y as int) / (FP as int),
                );
            }
            assert forall|r: int, k: int|
                0 <= r < i as int + 1 implies ray_sample_painted(
                gv,
                fb.buffer@,
                wi,
                hi,
                player.x as int,
                player.y as int,
                dirs@[r].0 as int,
                dirs@[r].1 as int,
                *cfg,
                k,
            ) by {
                if r < i as int {
                    assert(ray_sample_painted(
                        gv,
                        prev,
                        wi,
                        hi,
                        player.x as int,
                        player.y as int,
                        dirs@[r].0 as int,
                        dirs@[r].1 as int,
                        *cfg,
                        k,
                    ));
                    let dk = k * (cfg.step as int);
                    let xk = sample_coord(player.x as int, dirs@[r].0 as int, dk);
                    let yk = sample_coord(player.y as int, dirs@[r].1 as int, dk);
                    if xk >= 0 && yk >= 0 && xk / (FP as int) < wi && yk / (FP as int) < hi {
                        lemma_pixel_index_in_range(wi, hi, xk / (FP as int), yk / (FP as int));
                    }
                }
            };
        }
        i = i + 1;
    }
    proof {
        assert forall|px: int, py: int|
            0 <= px < wi && 0 <= py < hi implies fb.buffer@[py * wi + px] == RAY_COLOR
            || fb.buffer@[py * wi + px] == overview_base_pixel(
            gv,
            blocki,
            old_buf,
            wi,
            px,
            py,
        ) by {
            lemma_pixel_index_in_range(wi, hi, px, py);
            lemma_pixel_index_decompose(wi, px, py);
        };
    }
}

/// Whether a color belongs to the minimap's palette: wall grey, goal
/// green, empty black, or the red player marker.
pub open spec fn minimap_palette(c: u32) -> bool {
    c == 0x888888 || c == 0x00FF00 || c == 0x000000 || c == 0xFF0000
}

/// The minimap's flat color for a cell code: grey for the classic wall
/// kinds, green for the goal, black for everything else.
pub open spec fn minimap_palette_color(c: char) -> u32 {
    if c == '+' || c == '-' || c == '|' {
        0x888888
    } else if c == 'g' {
        0x00FF00
    } else {
        0x000000
    }
}

/// A minimap pixel shows its cell: a screen position inside the drawn
/// square of grid cell (row, col) — at `cell` pixels per cell from the
/// minimap origin `(mx, my)`, for squares that fit the surface — holds
/// that cell's palette color, unless the red player marker overdrew it.
pub open spec fn minimap_pixel_shown(
    m: Seq<Seq<char>>,
    buf: Seq<u32>,
    w: int,
    h: int,
    mx: int,
    my: int,
    cell: int,
    px: int,
    py: int,
) -> bool {
    let col = (px - mx) / cell;
    let row = (py - my) / cell;
    cell >= 1 && px >= mx && py >= my && 0 <= row < m.len() && 0 <= col < m[0].len() && mx + col
        * cell + cell < w && my + row * cell + cell < h && 0 <= px < w && 0 <= py < h
        ==> buf[py * w + px] == minimap_palette_color(m[row][col]) || buf[py * w + px]
        == 0xFF0000
}

/// The screen position inside the drawn square of grid cell
/// `((py - my) / cell, (px - mx) / cell)` has been painted by the cell
/// pass so far: its cell lies before the pass bound `(rowb, colb)` and
/// its square fits the surface.
pub open spec fn minimap_cell_done(
    m: Seq<Seq<char>>,
    mx: int,
    my: int,
    cell: int,
    w: int,
    h: int,
    rowb: int,
    colb: int,
    px: int,
    py: int,
) -> bool {
    let col = (px - mx) / cell;
    let row = (py - my) / cell;
    &&& cell >= 1
    &&& px >= mx
    &&& py >= my
    &&& 0 <= row < m.len()
    &&& 0 <= col < m[0].len()
    &&& (row < rowb || (row == rowb && col < colb))
    &&& mx + col * cell + cell < w
    &&& my + row * cell + cell < h
}

/// The player marker is drawn: each surface pixel of the red square
/// centered on the player's minimap cell is red.
pub open spec fn minimap_marker_shown(
    buf: Seq<u32>,
    w: int,
    h: int,
    mx: int,
    my: int,
    cell: int,
    player: Player,
    cfg: RenderConfig,
    i: int,
    j: int,
) -> bool {
    let pc = (player.x as int) / (cfg.block_size * FP);
    let pr = (player.y as int) / (cfg.block_size * FP);
    let cx = mx + pc * cell + cell / 2;
    let cy = my + pr * cell + cell / 2;
    let r = cell / 4;
    let px = cx + i - r;
    let py = cy + j - r;
    0 <= i <= 2 * r && 0 <= j <= 2 * r && 0 <= px < w && 0 <= py < h ==> buf[py * w + px]
        == 0xFF0000
}

/// A scaled top-down overview in a corner of the surface: one small
/// square per maze cell in the cell's palette color, and a red marker
/// centered on the player's cell, drawn last.
pub fn render_minimap(
    fb: &mut Framebuffer,
    maze: &Vec<Vec<char>>,
    player: &Player,
    cfg: &RenderConfig,
    minimap_size: usize,
    minimap_x: usize,
    minimap_y: usize,
)
    requires
        old(fb).wf(),
        maze_wf(grid_view(maze)),
        grid_view(maze).len() <= 32768,
        grid_view(maze)[0].len() <= 32768,
        player.wf(),
        cfg.wf(),
        minimap_size <= 32768,
        minimap_x <= 32768,
        minimap_y <= 32768,
    ensures
        final(fb).wf(),
        final(fb).width == old(fb).width,
        final(fb).height == old(fb).height,
        final(fb).background_color == old(fb).background_color,
        final(fb).buffer@.len() == old(fb).buffer@.len(),
        forall|idx: int|
            0 <= idx < old(fb).buffer@.len() && final(fb).buffer@[idx] != old(fb).buffer@[idx]
                ==> minimap_palette(final(fb).buffer@[idx]),
        forall|px: int, py: int|
            #[trigger] minimap_pixel_shown(
                grid_view(maze),
                final(fb).buffer@,
                old(fb).width as int,
                old(fb).height as int,
                minimap_x as int,
                minimap_y as int,
                (minimap_size as int) / (grid_view(maze).len() as int),
                px,
                py,
            ),
        forall|i: int, j: int|
            #[trigger] minimap_marker_shown(
                final(fb).buffer@,
                old(fb).width as int,
                old(fb).height as int,
                minimap_x as int,
                minimap_y as int,
                (minimap_size as int) / (grid_view(maze).len() as int),
                *player,
                *cfg,
                i,
                j,
            ),
{
    let ghost gv = grid_view(maze);
    let ghost wi = old(fb).width as int;
    let ghost hi = old(fb).height as int;
    let ghost old_buf = old(fb).buffer@;
    let ghost mx = minimap_x as int;
    let ghost my = minimap_y as int;
    let rows = maze.len();
    let cell_size = minimap_size / rows;
    let ghost csz = cell_size as int;
    proof {
        assert(csz == (minimap_size as int) / (gv.len() as int));
    }
    let mut row: usize = 0;
    while row < rows
        invariant
            fb.wf(),
            fb.width == old(fb).width,
            fb.height == old(fb).height,
            fb.background_color == old(fb).background_color,
            fb.buffer@.len() == old(fb).buffer@.len(),
            gv == grid_view(maze),
            wi == old(fb).width as int,
            hi == old(fb).height as int,
            old_buf == old(fb).buffer@,
            mx == minimap_x as int,
            my == minimap_y as int,
            csz == cell_size as int,
            maze_wf(gv),
            gv.len() <= 32768,
            gv[0].len() <= 32768,
            rows == maze@.len(),
            row <= rows,
            cell_size <= 32768,
            minimap_x <= 32768,
            minimap_y <= 32768,
            forall|idx: int|
                0 <= idx < old_buf.len() ==> fb.buffer@[idx] == (if minimap_cell_done(
                    gv,
                    mx,
                    my,
                    csz,
                    wi,
                    hi,
                    row as int,
                    0,
                    idx % wi,
                    idx / wi,
                ) {
                    minimap_palette_color(gv[(idx / wi - my) / csz][(idx % wi - mx) / csz])
                } else {
                    old_buf[idx]
                }),
        decreases rows - row,
    {
        proof {
            assert(grid_view(maze)[row as int] == maze@[row as int]@);
            assert(grid_view(maze)[row as int].len() == grid_view(maze)[0].len());
        }
        let cols = maze[row].len();
        let mut col: usize = 0;
        while col < cols
            invariant
                fb.wf(),
                fb.width == old(fb).width,
                fb.height == old(fb).height,
                fb.background_color == old(fb).background_color,
                fb.buffer@.len() == old(fb).buffer@.len(),
                gv == grid_view(maze),
                wi == old(fb).width as int,
                hi == old(fb).height as int,
                old_buf == old(fb).buffer@,
                mx == minimap_x as int,
                my == minimap_y as int,
                csz == cell_size as int,
                maze_wf(gv),
                gv.len() <= 32768,
                gv[0].len() <= 32768,
                row < maze@.len(),
                row < 32768,
                cols == maze@[row as int]@.len(),
                cols == gv[0].len(),
                cols <= 32768,
                col <= cols,
                cell_size <= 32768,
                minimap_x <= 32768,
                minimap_y <= 32768,
                forall|idx: int|
                    0 <= idx < old_buf.len() ==> fb.buffer@[idx] == (if minimap_cell_done(
                        gv,
                        mx,
                        my,
                        csz,
                        wi,
                        hi,
                        row as int,
                        col as int,
                        idx % wi,
                        idx / wi,
                    ) {
                        minimap_palette_color(gv[(idx / wi - my) / csz][(idx % wi - mx) / csz])
                    } else {
                        old_buf[idx]
                    }),
            decreases cols - col,
        {
            proof {
                assert((col as int) * (cell_size as int) < 0x4000_0000) by (nonlinear_arith)
                    requires 0 <= (col as int) < 32768 && 0 <= (cell_size as int) <= 32768;
                assert((row as int) * (cell_size as int) < 0x4000_0000) by (nonlinear_arith)
                    requires 0 <= (row as int) < 32768 && 0 <= (cell_size as int) <= 32768;
            }
            let x = minimap_x + col * cell_size;
            let y = minimap_y + row * cell_size;
            if x + cell_size < fb.width && y + cell_size < fb.height {
                let cell = maze[row][col];
                let color: u32 = if cell == '+' || cell == '-' || cell == '|' {
                    0x888888
                } else if cell == 'g' {
                    0x00FF00
                } else {
                    0x000000
                };
                proof {
                    assert(color == minimap_palette_color(gv[row as int][col as int]));
                }
                fill_rect(fb, x, y, cell_size, cell_size, color);
            }
            proof {
                assert forall|idx: int|
                    0 <= idx < old_buf.len() implies ((x as int <= #[trigger] (idx % wi) < x
                    + csz && y as int <= idx / wi < y + csz) <==> (csz >= 1 && idx % wi >= mx
                    && idx / wi >= my && (idx / wi - my) / csz == row as int && (idx % wi - mx)
                    / csz == col as int)) by {
                    let px = idx % wi;
                    let py = idx / wi;
                    if csz >= 1 {
                        if x as int <= px < x + csz && y as int <= py < y + csz {
                            vstd::arithmetic::div_mod::lemma_fundamental_div_mod_converse_div(
                                px - mx,
                                csz,
                                col as int,
                                px - mx - (col as int) * csz,
                            );
                            vstd::arithmetic::div_mod::lemma_fundamental_div_mod_converse_div(
                                py - my,
                                csz,
                                row as int,
                                py - my - (row as int) * csz,
                            );
                        }
                        if px >= mx && py >= my && (py - my) / csz == row as int && (px - mx)
                            / csz == col as int {
                            vstd::arithmetic::div_mod::lemma_fundamental_div_mod(px - mx, csz);
                            vstd::arithmetic::div_mod::lemma_fundamental_div_mod(py - my, csz);
                            assert(csz * ((px - mx) / csz) == ((px - mx) / csz) * csz)
                                by (nonlinear_arith);
                            assert(csz * ((py - my) / csz) == ((py - my) / csz) * csz)
                                by (nonlinear_arith);
                        }
                    }
                };
            }
            col = col + 1;
        }
        row = row + 1;
    }
    // The player marker: a red square centered on the player's cell.
    let cell_fp = cfg.block_size * FP;
    proof {
        vstd::arithmetic::div_mod::lemma_div_is_ordered_by_denominator(
            player.x as int,
            FP as int,
            cell_fp as int,
        );
        vstd::arithmetic::div_mod::lemma_div_is_ordered_by_denominator(
            player.y as int,
            FP as int,
            cell_fp as int,
        );
        vstd::arithmetic::div_mod::lemma_div_is_ordered(player.x as int, 0x4000_0000, FP as int);
        vstd::arithmetic::div_mod::lemma_div_is_ordered(player.y as int, 0x4000_0000, FP as int);
    }
    let pc = (player.x / cell_fp) as usize;
    let pr = (player.y / cell_fp) as usize;
    proof {
        assert((pc as int) * (cell_size as int) < 0x4000_0000) by (nonlinear_arith)
            requires 0 <= (pc as int) <= 16384 && 0 <= (cell_size as int) <= 32768;
        assert((pr as int) * (cell_size as int) < 0x4000_0000) by (nonlinear_arith)
            requires 0 <= (pr as int) <= 16384 && 0 <= (cell_size as int) <= 32768;
    }
    let center_x = minimap_x + pc * cell_size + cell_size / 2;
    let center_y = minimap_y + pr * cell_size + cell_size / 2;
    let radius = cell_size / 4;
    let ghost cmap = fb.buffer@;
    let bx = if center_x >= radius {
        center_x - radius
    } else {
        0
    };
    let by = if center_y >= radius {
        center_y - radius
    } else {
        0
    };
    fill_rect(fb, bx, by, center_x + radius + 1 - bx, center_y + radius + 1 - by, 0xFF0000);
    proof {
        let cx = mx + (pc as int) * csz + csz / 2;
        let cy = my + (pr as int) * csz + csz / 2;
        let r = csz / 4;
        assert(center_x as int == cx);
        assert(center_y as int == cy);
        assert(radius as int == r);
        assert forall|i: int, j: int|
            minimap_marker_shown(
                fb.buffer@,
                wi,
                hi,
                mx,
                my,
                csz,
                *player,
                *cfg,
                i,
                j,
            ) by {
            let px = cx + i - r;
            let py = cy + j - r;
            if 0 <= i <= 2 * r && 0 <= j <= 2 * r && 0 <= px < wi && 0 <= py < hi {
                lemma_pixel_index_in_range(wi, hi, px, py);
                lemma_pixel_index_decompose(wi, px, py);
            }
        };
        assert forall|px: int, py: int|
            minimap_pixel_shown(
                gv,
                fb.buffer@,
                wi,
                hi,
                mx,
                my,
                csz,
                px,
                py,
            ) by {
            let col = (px - mx) / csz;
            let row2 = (py - my) / csz;
            if csz >= 1 && px >= mx && py >= my && 0 <= row2 < gv.len() && 0 <= col
                < gv[0].len() && mx + col * csz + csz < wi && my + row2 * csz + csz < hi && 0
                <= px < wi && 0 <= py < hi {
                lemma_pixel_index_in_range(wi, hi, px, py);
                lemma_pixel_index_decompose(wi, px, py);
            }
        };
    }
}

} // verus!

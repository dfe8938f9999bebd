//! The sprite compositor: camera-facing billboards drawn against the
//! per-column depth buffer, with key-color transparency.

use vstd::prelude::*;
use vstd::arithmetic::div_mod::lemma_div_nonincreasing;
use crate::enemy::Enemy;
use crate::fixed::{isqrt, mul_div_s, scale_signed, sqrt_spec, TWO_PI_FP};
use crate::framebuffer::{lemma_pixel_index_decompose, lemma_pixel_index_in_range, Framebuffer};
use crate::player::Player;
use crate::texture::Texture;
use crate::{RenderConfig, FP};

verus! {

/// The Euclidean distance, rounded down, between two fixed-point world
/// positions.
pub open spec fn sprite_dist_spec(px: int, py: int, ex: int, ey: int) -> int {
    let dx = if px >= ex { px - ex } else { ex - px };
    let dy = if py >= ey { py - ey } else { ey - py };
    sqrt_spec((dx * dx + dy * dy) as nat) as int
}

/// The billboard's square side in pixels, for a screen of height `h` and
/// an entity at distance `d`.
pub open spec fn sprite_size_spec(h: int, d: int, cfg: RenderConfig) -> int {
    h * cfg.sprite_scale * FP / d
}

/// The screen column where the billboard starts, before clipping: the
/// screen center shifted by the entity's angular offset, minus half the
/// billboard.
pub open spec fn sprite_left_spec(
    w: int,
    h: int,
    a: int,
    fov: int,
    sprite_a: int,
    d: int,
    cfg: RenderConfig,
) -> int {
    w / 2 + mul_div_s(sprite_a - a, h, fov) - sprite_size_spec(h, d, cfg) / 2
}

/// The half-open range of screen columns the billboard covers, clipped to
/// the surface.
pub open spec fn sprite_span_spec(
    w: int,
    h: int,
    a: int,
    fov: int,
    sprite_a: int,
    d: int,
    cfg: RenderConfig,
) -> (int, int) {
    let size = sprite_size_spec(h, d, cfg);
    let left = sprite_left_spec(w, h, a, fov, sprite_a, d, cfg);
    let sx = if left < 0 { 0 } else if left >= w { w } else { left };
    let ex = if sx + size < w { sx + size } else { w };
    (sx, ex)
}

/// The half-open range of screen rows the billboard covers, clipped to
/// the surface: the square is centered on the screen midline.
pub open spec fn sprite_vspan_spec(h: int, d: int, cfg: RenderConfig) -> (int, int) {
    let size = sprite_size_spec(h, d, cfg);
    let top = h / 2 - size / 2;
    let sy = if top < 0 { 0 } else if top >= h { h } else { top };
    let ey = if sy + size < h { sy + size } else { h };
    (sy, ey)
}

/// The billboard texel under the screen position `(x, y)`: the square's
/// pixels stretched over `size` columns and rows from its top-left corner
/// `(sx, sy)`.
pub open spec fn sprite_texel_spec(
    tex: Texture,
    sx: int,
    sy: int,
    size: int,
    x: int,
    y: int,
) -> u32 {
    tex.pixel_spec((x - sx) * tex.width / size, (y - sy) * tex.height / size)
}

/// The color screen position `(x, y)` holds after one billboard is
/// composited: the billboard's texel where the position lies inside the
/// clipped square, the column's old depth was strictly farther than the
/// entity, and the texel is not the transparent key; the old pixel
/// everywhere else — so key-colored texels and positions outside the
/// square keep their value.
pub open spec fn sprite_result_pixel(
    fbw: int,
    fbh: int,
    oldbuf: Seq<u32>,
    oldz: Seq<u64>,
    player: Player,
    enemy: Enemy,
    sprite_a: int,
    tex: Texture,
    cfg: RenderConfig,
    x: int,
    y: int,
) -> u32 {
    let d = sprite_dist_spec(player.x as int, player.y as int, enemy.x as int, enemy.y as int);
    let span = sprite_span_spec(fbw, fbh, player.a as int, player.fov as int, sprite_a, d, cfg);
    let vspan = sprite_vspan_spec(fbh, d, cfg);
    let texel = sprite_texel_spec(tex, span.0, vspan.0, sprite_size_spec(fbh, d, cfg), x, y);
    if span.0 <= x < span.1 && vspan.0 <= y < vspan.1 && oldz[x] > d && texel != cfg.transparent {
        texel
    } else {
        oldbuf[y * fbw + x]
    }
}

/// The camera-to-entity distance, in fixed-point world units.
pub fn sprite_distance(player: &Player, enemy: &Enemy) -> (d: u64)
    requires
        player.wf(),
        enemy.wf(),
    ensures
        d == sprite_dist_spec(player.x as int, player.y as int, enemy.x as int, enemy.y as int),
        d <= 0x8000_0000,
{
    let dx = if player.x >= enemy.x {
        player.x - enemy.x
    } else {
        enemy.x - player.x
    };
    let dy = if player.y >= enemy.y {
        player.y - enemy.y
    } else {
        enemy.y - player.y
    };
    proof {
        assert((dx as int) * (dx as int) <= 0x1000_0000_0000_0000 && (dy as int) * (dy as int)
            <= 0x1000_0000_0000_0000) by (nonlinear_arith)
            requires 0 <= (dx as int) <= 0x4000_0000 && 0 <= (dy as int) <= 0x4000_0000;
    }
    let d2 = dx * dx + dy * dy;
    let d = isqrt(d2);
    proof {
        assert((d as int) <= 0x8000_0000) by (nonlinear_arith)
            requires
                0 <= (d as int),
                (d as int) * (d as int) <= 0x2000_0000_0000_0000,
        ;
    }
    d
}

/// Projects one entity as a camera-facing square billboard and composites
/// it against the depth buffer, column by column: a column is drawn only
/// when the entity is strictly nearer than the column's depth, and a
/// drawn column's depth becomes the entity's distance, so later sprites
/// are occluded by it in turn. Every pixel ends as `sprite_result_pixel`
/// states: pixels of the transparent color key and pixels outside the
/// clipped square are never written. Entities behind the camera or closer
/// than the minimum sprite distance are skipped whole.
#[verifier::rlimit(100)]
pub fn draw_sprite(
    fb: &mut Framebuffer,
    player: &Player,
    enemy: &Enemy,
    z_buffer: &mut Vec<u64>,
    sprite_a: i64,
    texture: &Texture,
    cfg: &RenderConfig,
)
    requires
        old(fb).wf(),
        player.wf(),
        enemy.wf(),
        texture.wf(),
        cfg.wf(),
        old(z_buffer)@.len() == old(fb).width,
        -2 * (TWO_PI_FP as int) <= sprite_a <= 2 * (TWO_PI_FP as int),
    ensures
        final(fb).wf(),
        final(fb).width == old(fb).width,
        final(fb).height == old(fb).height,
        final(fb).background_color == old(fb).background_color,
        final(fb).buffer@.len() == old(fb).buffer@.len(),
        final(z_buffer)@.len() == old(z_buffer)@.len(),
        (sprite_a < cfg.behind_threshold || sprite_dist_spec(
            player.x as int,
            player.y as int,
            enemy.x as int,
            enemy.y as int,
        ) < cfg.min_sprite_dist) ==> final(fb).buffer@ == old(fb).buffer@ && final(z_buffer)@
            == old(z_buffer)@ && final(fb).current_color == old(fb).current_color,
        forall|x: int|
            0 <= x < old(z_buffer)@.len() && old(z_buffer)@[x] <= sprite_dist_spec(
                player.x as int,
                player.y as int,
                enemy.x as int,
                enemy.y as int,
            ) ==> final(z_buffer)@[x] == old(z_buffer)@[x],
        forall|x: int|
            0 <= x < old(z_buffer)@.len() ==> final(z_buffer)@[x] == old(z_buffer)@[x] || final(
                z_buffer)@[x] == sprite_dist_spec(
                player.x as int,
                player.y as int,
                enemy.x as int,
                enemy.y as int,
            ),
        forall|x: int|
            0 <= x < old(z_buffer)@.len() && !(sprite_span_spec(
                old(fb).width as int,
                old(fb).height as int,
                player.a as int,
                player.fov as int,
                sprite_a as int,
                sprite_dist_spec(player.x as int, player.y as int, enemy.x as int, enemy.y as int),
                *cfg,
            ).0 <= x < sprite_span_spec(
                old(fb).width as int,
                old(fb).height as int,
                player.a as int,
                player.fov as int,
                sprite_a as int,
                sprite_dist_spec(player.x as int, player.y as int, enemy.x as int, enemy.y as int),
                *cfg,
            ).1) ==> final(z_buffer)@[x] == old(z_buffer)@[x],
        forall|idx: int|
            0 <= idx < old(fb).buffer@.len() && final(fb).buffer@[idx] != old(fb).buffer@[idx]
                ==> old(z_buffer)@[idx % (old(fb).width as int)] > sprite_dist_spec(
                player.x as int,
                player.y as int,
                enemy.x as int,
                enemy.y as int,
            ) && final(fb).buffer@[idx] != cfg.transparent,
        !(sprite_a < cfg.behind_threshold || sprite_dist_spec(
            player.x as int,
            player.y as int,
            enemy.x as int,
            enemy.y as int,
        ) < cfg.min_sprite_dist) ==> forall|x: int|
            sprite_span_spec(
                old(fb).width as int,
                old(fb).height as int,
                player.a as int,
                player.fov as int,
                sprite_a as int,
                sprite_dist_spec(player.x as int, player.y as int, enemy.x as int, enemy.y as int),
                *cfg,
            ).0 <= x < sprite_span_spec(
                old(fb).width as int,
                old(fb).height as int,
                player.a as int,
                player.fov as int,
                sprite_a as int,
                sprite_dist_spec(player.x as int, player.y as int, enemy.x as int, enemy.y as int),
                *cfg,
            ).1 && old(z_buffer)@[x] > sprite_dist_spec(
                player.x as int,
                player.y as int,
                enemy.x as int,
                enemy.y as int,
            ) ==> final(z_buffer)@[x] == sprite_dist_spec(
                player.x as int,
                player.y as int,
                enemy.x as int,
                enemy.y as int,
            ),
        !(sprite_a < cfg.behind_threshold || sprite_dist_spec(
            player.x as int,
            player.y as int,
            enemy.x as int,
            enemy.y as int,
        ) < cfg.min_sprite_dist) ==> forall|x: int, y: int|
            0 <= x < old(fb).width && 0 <= y < old(fb).height ==> final(fb).buffer@[y * (old(
                fb,
            ).width as int) + x] == #[trigger] sprite_result_pixel(
                old(fb).width as int,
                old(fb).height as int,
                old(fb).buffer@,
                old(z_buffer)@,
                *player,
                *enemy,
                sprite_a as int,
                *texture,
                *cfg,
                x,
                y,
            ),
{
    let d = sprite_distance(player, enemy);
    if sprite_a < cfg.behind_threshold {
        return ;
    }
    if d < cfg.min_sprite_dist {
        return ;
    }
    let w = fb.width;
    let h = fb.height;
    let sh = h as u64;
    proof {
        assert((sh as int) * (cfg.sprite_scale as int) <= 0x4000_0000) by (nonlinear_arith)
            requires 0 <= (sh as int) <= 32768 && 0 <= (cfg.sprite_scale as int) <= 32768;
    }
    let size: u64 = sh * cfg.sprite_scale * FP / d;
    let delta = sprite_a - player.a;
    proof {
        assert((if delta >= 0 {
            (delta as int) * (sh as int)
        } else {
            (-(delta as int)) * (sh as int)
        }) <= 0x1_0000_0000_0000) by (nonlinear_arith)
            requires
                -0x40_0000 <= (delta as int) <= 0x40_0000,
                0 <= (sh as int) <= 32768,
        ;
    }
    let offset = scale_signed(delta, sh, player.fov as u64);
    proof {
        assert(-0x1_0000_0000_0000 <= offset <= 0x1_0000_0000_0000);
    }
    let start_x_i: i64 = (w / 2) as i64 + offset - (size / 2) as i64;
    let start_y_i: i64 = (h / 2) as i64 - (size / 2) as i64;
    let sx: usize = if start_x_i < 0 {
        0
    } else if start_x_i >= w as i64 {
        w
    } else {
        start_x_i as usize
    };
    let sy: usize = if start_y_i < 0 {
        0
    } else if start_y_i >= h as i64 {
        h
    } else {
        start_y_i as usize
    };
    let ex: usize = if size < (w - sx) as u64 {
        sx + size as usize
    } else {
        w
    };
    let ey: usize = if size < (h - sy) as u64 {
        sy + size as usize
    } else {
        h
    };
    let ghost old_z = old(z_buffer)@;
    let ghost old_buf = old(fb).buffer@;
    let ghost di = d as int;
    proof {
        let span = sprite_span_spec(
            w as int,
            h as int,
            player.a as int,
            player.fov as int,
            sprite_a as int,
            di,
            *cfg,
        );
        assert(size as int == sprite_size_spec(h as int, di, *cfg));
        assert(start_x_i as int == sprite_left_spec(
            w as int,
            h as int,
            player.a as int,
            player.fov as int,
            sprite_a as int,
            di,
            *cfg,
        ));
        assert(sx as int == span.0);
        assert(ex as int == span.1);
        let vspan = sprite_vspan_spec(h as int, di, *cfg);
        assert(start_y_i as int == h as int / 2 - sprite_size_spec(h as int, di, *cfg) / 2);
        assert(sy as int == vspan.0);
        assert(ey as int == vspan.1);
    }
    let mut x: usize = sx;
    while x < ex
        invariant
            fb.wf(),
            fb.width == old(fb).width,
            fb.height == old(fb).height,
            fb.background_color == old(fb).background_color,
            fb.buffer@.len() == old(fb).buffer@.len(),
            z_buffer@.len() == old_z.len(),
            old_z == old(z_buffer)@,
            old_buf == old(fb).buffer@,
            old_z.len() == old(fb).width,
            w == old(fb).width,
            h == old(fb).height,
            texture.wf(),
            cfg.wf(),
            di == d,
            sx <= x <= ex,
            ex <= w,
            sy <= ey <= h,
            size >= 1 || sx == ex,
            ex <= sx + size,
            ey <= sy + size,
            forall|xx: int| 0 <= xx < old_z.len() && old_z[xx] <= di ==> z_buffer@[xx] == old_z[xx],
            forall|xx: int|
                0 <= xx < old_z.len() ==> z_buffer@[xx] == old_z[xx] || z_buffer@[xx] == di,
            forall|xx: int| 0 <= xx < sx ==> z_buffer@[xx] == old_z[xx],
            forall|xx: int| x <= xx < old_z.len() ==> z_buffer@[xx] == old_z[xx],
            forall|xx: int| sx <= xx < x && old_z[xx] > di ==> z_buffer@[xx] == di,
            forall|idx: int|
                0 <= idx < old_buf.len() ==> fb.buffer@[idx] == (if sx as int <= idx % (
                w as int) < x as int && old_z[idx % (w as int)] > di && sy as int <= idx / (
                w as int) < ey as int && sprite_texel_spec(
                    *texture,
                    sx as int,
                    sy as int,
                    size as int,
                    idx % (w as int),
                    idx / (w as int),
                ) != cfg.transparent {
                    sprite_texel_spec(
                        *texture,
                        sx as int,
                        sy as int,
                        size as int,
                        idx % (w as int),
                        idx / (w as int),
                    )
                } else {
                    old_buf[idx]
                }),
        decreases ex - x,
    {
        let zx = z_buffer[x];
        if d < zx {
            let mut y: usize = sy;
            while y < ey
                invariant
                    fb.wf(),
                    fb.width == old(fb).width,
                    fb.height == old(fb).height,
                    fb.background_color == old(fb).background_color,
                    fb.buffer@.len() == old(fb).buffer@.len(),
                    z_buffer@.len() == old_z.len(),
                    old_z == old(z_buffer)@,
                    old_buf == old(fb).buffer@,
                    old_z.len() == old(fb).width,
                    w == old(fb).width,
                    h == old(fb).height,
                    texture.wf(),
                    cfg.wf(),
                    di == d,
                    sx <= x < ex,
                    ex <= w,
                    sy <= y <= ey,
                    ey <= h,
                    size >= 1,
                    ex <= sx + size,
                    ey <= sy + size,
                    old_z[x as int] > di,
                    forall|xx: int|
                        0 <= xx < old_z.len() && old_z[xx] <= di ==> z_buffer@[xx] == old_z[xx],
                    forall|xx: int|
                        0 <= xx < old_z.len() ==> z_buffer@[xx] == old_z[xx] || z_buffer@[xx]
                            == di,
                    forall|xx: int| 0 <= xx < sx ==> z_buffer@[xx] == old_z[xx],
                    forall|xx: int| x <= xx < old_z.len() ==> z_buffer@[xx] == old_z[xx],
                    forall|xx: int| sx <= xx < x && old_z[xx] > di ==> z_buffer@[xx] == di,
                    forall|idx: int|
                        0 <= idx < old_buf.len() ==> fb.buffer@[idx] == (if (sx as int <= idx % (
                        w as int) < x as int && old_z[idx % (w as int)] > di && sy as int <= idx
                            / (w as int) < ey as int && sprite_texel_spec(
                            *texture,
                            sx as int,
                            sy as int,
                            size as int,
                            idx % (w as int),
                            idx / (w as int),
                        ) != cfg.transparent) || (idx % (w as int) == x as int && sy as int
                            <= idx / (w as int) < y as int && sprite_texel_spec(
                            *texture,
                            sx as int,
                            sy as int,
                            size as int,
                            idx % (w as int),
                            idx / (w as int),
                        ) != cfg.transparent) {
                            sprite_texel_spec(
                                *texture,
                                sx as int,
                                sy as int,
                                size as int,
                                idx % (w as int),
                                idx / (w as int),
                            )
                        } else {
                            old_buf[idx]
                        }),
                decreases ey - y,
            {
                let relx = (x - sx) as u64;
                let rely = (y - sy) as u64;
                proof {
                    assert((relx as int) * (texture.width as int) <= 0x4000_0000)
                        by (nonlinear_arith)
                        requires
                            0 <= (relx as int) < 32769,
                            0 <= (texture.width as int) <= 32768,
                    ;
                    assert((rely as int) * (texture.height as int) <= 0x4000_0000)
                        by (nonlinear_arith)
                        requires
                            0 <= (rely as int) < 32769,
                            0 <= (texture.height as int) <= 32768,
                    ;
                    lemma_div_nonincreasing(
                        (relx as int) * (texture.width as int),
                        size as int,
                    );
                    lemma_div_nonincreasing(
                        (rely as int) * (texture.height as int),
                        size as int,
                    );
                }
                let tx64 = relx * (texture.width as u64) / size;
                let ty64 = rely * (texture.height as u64) / size;
                let color = texture.get_pixel_color(tx64 as u32, ty64 as u32);
                proof {
                    assert(color == sprite_texel_spec(
                        *texture,
                        sx as int,
                        sy as int,
                        size as int,
                        x as int,
                        y as int,
                    ));
                }
                if color != cfg.transparent {
                    fb.set_current_color(color);
                    fb.point(x, y);
                    proof {
                        lemma_pixel_index_in_range(w as int, h as int, x as int, y as int);
                        lemma_pixel_index_decompose(w as int, x as int, y as int);
                        assert forall|idx: int|
                            0 <= idx < old_buf.len() && #[trigger] (idx % (w as int))
                                == x as int && idx / (w as int) == y as int implies idx == (
                        y as int) * (w as int) + (x as int) by {
                            vstd::arithmetic::div_mod::lemma_fundamental_div_mod(
                                idx,
                                w as int,
                            );
                            assert((w as int) * (idx / (w as int)) == (idx / (w as int)) * (
                            w as int)) by (nonlinear_arith);
                        };
                    }
                }
                y = y + 1;
            }
            z_buffer[x] = d;
        }
        x = x + 1;
    }
    proof {
        assert forall|px: int, py: int|
            0 <= px < w as int && 0 <= py < h as int implies fb.buffer@[py * (w as int) + px]
            == sprite_result_pixel(
            w as int,
            h as int,
            old_buf,
            old_z,
            *player,
            *enemy,
            sprite_a as int,
            *texture,
            *cfg,
            px,
            py,
        ) by {
            lemma_pixel_index_in_range(w as int, h as int, px, py);
            lemma_pixel_index_decompose(w as int, px, py);
        };
    }
}

/// One compositing step of the depth fold: the depth an entity leaves in
/// column `x`, given the depth `z` the column held when it was drawn. A
/// skipped entity (behind the camera or too close) leaves every column
/// alone; otherwise a covered column strictly farther than the entity
/// takes the entity's distance.
pub open spec fn enemy_depth_step(
    w: int,
    h: int,
    player: Player,
    enemy: Enemy,
    sprite_a: int,
    cfg: RenderConfig,
    x: int,
    z: int,
) -> int {
    let d = sprite_dist_spec(player.x as int, player.y as int, enemy.x as int, enemy.y as int);
    let span = sprite_span_spec(w, h, player.a as int, player.fov as int, sprite_a, d, cfg);
    if sprite_a < cfg.behind_threshold || d < cfg.min_sprite_dist {
        z
    } else if span.0 <= x < span.1 && z > d {
        d
    } else {
        z
    }
}

/// The depth column `x` holds after the entities from position `i` on are
/// composited in order onto a column holding `z`: the fold of
/// `enemy_depth_step`, which works out to the minimum of `z` and the
/// distances of the non-skipped entities whose clipped spans cover `x`.
pub open spec fn enemies_depth_from(
    enemies: Seq<Enemy>,
    bearings: Seq<i64>,
    i: int,
    w: int,
    h: int,
    player: Player,
    cfg: RenderConfig,
    x: int,
    z: int,
) -> int
    decreases enemies.len() - i,
{
    if i < 0 || i >= enemies.len() {
        z
    } else {
        enemies_depth_from(
            enemies,
            bearings,
            i + 1,
            w,
            h,
            player,
            cfg,
            x,
            enemy_depth_step(w, h, player, enemies[i], bearings[i] as int, cfg, x, z),
        )
    }
}

/// Draws every entity of a frame; each one is depth-tested against the
/// buffer state left by the walls and the sprites drawn before it, so
/// every column's final depth is the fold of the entities' depth steps
/// over its starting depth.
pub fn render_enemies(
    fb: &mut Framebuffer,
    player: &Player,
    enemies: &Vec<Enemy>,
    bearings: &Vec<i64>,
    z_buffer: &mut Vec<u64>,
    texture: &Texture,
    cfg: &RenderConfig,
)
    requires
        old(fb).wf(),
        player.wf(),
        texture.wf(),
        cfg.wf(),
        old(z_buffer)@.len() == old(fb).width,
        enemies@.len() == bearings@.len(),
        forall|i: int| 0 <= i < enemies@.len() ==> (#[trigger] enemies@[i]).wf(),
        forall|i: int|
            0 <= i < bearings@.len() ==> -2 * (TWO_PI_FP as int) <= #[trigger] bearings@[i] <= 2
                * (TWO_PI_FP as int),
    ensures
        final(fb).wf(),
        final(fb).width == old(fb).width,
        final(fb).height == old(fb).height,
        final(fb).background_color == old(fb).background_color,
        final(fb).buffer@.len() == old(fb).buffer@.len(),
        final(z_buffer)@.len() == old(z_buffer)@.len(),
        forall|x: int|
            0 <= x < old(z_buffer)@.len() ==> final(z_buffer)@[x] as int
                == #[trigger] enemies_depth_from(
                enemies@,
                bearings@,
                0,
                old(fb).width as int,
                old(fb).height as int,
                *player,
                *cfg,
                x,
                old(z_buffer)@[x] as int,
            ),
{
    let ghost wi = old(fb).width as int;
    let ghost hi = old(fb).height as int;
    let ghost old_z = old(z_buffer)@;
    let n = enemies.len();
    let mut i: usize = 0;
    while i < n
        invariant
            fb.wf(),
            fb.width == old(fb).width,
            fb.height == old(fb).height,
            fb.background_color == old(fb).background_color,
            fb.buffer@.len() == old(fb).buffer@.len(),
            z_buffer@.len() == old(z_buffer)@.len(),
            z_buffer@.len() == old(fb).width,
            wi == old(fb).width as int,
            hi == old(fb).height as int,
            old_z == old(z_buffer)@,
            player.wf(),
            texture.wf(),
            cfg.wf(),
            n == enemies@.len(),
            enemies@.len() == bearings@.len(),
            i <= n,
            forall|j: int| 0 <= j < enemies@.len() ==> (#[trigger] enemies@[j]).wf(),
            forall|j: int|
                0 <= j < bearings@.len() ==> -2 * (TWO_PI_FP as int) <= #[trigger] bearings@[j]
                    <= 2 * (TWO_PI_FP as int),
            forall|x: int|
                0 <= x < old_z.len() ==> #[trigger] enemies_depth_from(
                    enemies@,
                    bearings@,
                    0,
                    wi,
                    hi,
                    *player,
                    *cfg,
                    x,
                    old_z[x] as int,
                ) == enemies_depth_from(
                    enemies@,
                    bearings@,
                    i as int,
                    wi,
                    hi,
                    *player,
                    *cfg,
                    x,
                    z_buffer@[x] as int,
                ),
        decreases n - i,
    {
        let e = &enemies[i];
        let b = bearings[i];
        let ghost prev = z_buffer@;
        draw_sprite(fb, player, e, z_buffer, b, texture, cfg);
        proof {
            assert forall|x: int|
                0 <= x < old_z.len() implies z_buffer@[x] as int == enemy_depth_step(
                wi,
                hi,
                *player,
                enemies@[i as int],
                bearings@[i as int] as int,
                *cfg,
                x,
                prev[x] as int,
            ) by {
                let d = sprite_dist_spec(
                    player.x as int,
                    player.y as int,
                    enemies@[i as int].x as int,
                    enemies@[i as int].y as int,
                );
                let span = sprite_span_spec(
                    wi,
                    hi,
                    player.a as int,
                    player.fov as int,
                    bearings@[i as int] as int,
                    d,
                    *cfg,
                );
                if !(bearings@[i as int] < cfg.behind_threshold || d < cfg.min_sprite_dist) {
                    if span.0 <= x < span.1 && prev[x] > d {
                        assert(z_buffer@[x] == d);
                    } else {
                        assert(z_buffer@[x] == prev[x]);
                    }
                }
            };
        }
        i = i + 1;
    }
}

/// The color a screen position holds after the heads-up overlay is
/// drawn: the overlay texel where the position lies inside the overlay's
/// box (centered at the bottom of the surface) and the texel is not the
/// transparent key; the old pixel everywhere else — so writes are
/// confined to the box and key-colored texels keep the surface's value.
pub open spec fn ui_result_pixel(
    ui: Texture,
    transparent: u32,
    oldbuf: Seq<u32>,
    w: int,
    h: int,
    px: int,
    py: int,
) -> u32 {
    let ux = (w - ui.width) / 2;
    let uy = h - ui.height;
    if ux <= px < ux + ui.width && uy <= py < uy + ui.height && ui.pixel_spec(
        px - ux,
        py - uy,
    ) != transparent {
        ui.pixel_spec(px - ux, py - uy)
    } else {
        oldbuf[py * w + px]
    }
}

/// Draws the heads-up overlay centered at the bottom of the surface:
/// every pixel ends as `ui_result_pixel` states, so every opaque overlay
/// texel lands at its place, pixels of the transparent color key keep
/// their value, and nothing outside the overlay's box is touched.
pub fn render_ui(fb: &mut Framebuffer, ui: &Texture, transparent: u32)
    requires
        old(fb).wf(),
        ui.wf(),
        ui.width as int <= old(fb).width,
        ui.height as int <= old(fb).height,
    ensures
        final(fb).wf(),
        final(fb).width == old(fb).width,
        final(fb).height == old(fb).height,
        final(fb).background_color == old(fb).background_color,
        final(fb).buffer@.len() == old(fb).buffer@.len(),
        forall|px: int, py: int|
            0 <= px < old(fb).width && 0 <= py < old(fb).height ==> final(fb).buffer@[py * (old(
                fb,
            ).width as int) + px] == #[trigger] ui_result_pixel(
                *ui,
                transparent,
                old(fb).buffer@,
                old(fb).width as int,
                old(fb).height as int,
                px,
                py,
            ),
{
    let uw = ui.width as usize;
    let uh = ui.height as usize;
    let w = fb.width;
    let h = fb.height;
    let ui_x = (w - uw) / 2;
    let ui_y = h - uh;
    let ghost wi = old(fb).width as int;
    let ghost hi = old(fb).height as int;
    let ghost old_buf = old(fb).buffer@;
    let ghost uxi = ui_x as int;
    let ghost uyi = ui_y as int;
    let mut y: usize = 0;
    while y < uh
        invariant
            fb.wf(),
            fb.width == old(fb).width,
            fb.height == old(fb).height,
            fb.background_color == old(fb).background_color,
            fb.buffer@.len() == old(fb).buffer@.len(),
            old_buf == old(fb).buffer@,
            wi == old(fb).width as int,
            hi == old(fb).height as int,
            ui.wf(),
            uw == ui.width,
            uh == ui.height,
            uw <= w,
            uh <= h,
            w == old(fb).width,
            h == old(fb).height,
            uxi == ui_x as int,
            uyi == ui_y as int,
            uxi == (wi - ui.width) / 2,
            uyi == hi - ui.height,
            ui_x + uw <= w,
            ui_y + uh == h,
            y <= uh,
            forall|idx: int|
                0 <= idx < old_buf.len() ==> fb.buffer@[idx] == (if uxi <= idx % wi < uxi
                    + ui.width && uyi <= idx / wi < uyi + y as int && ui.pixel_spec(
                    idx % wi - uxi,
                    idx / wi - uyi,
                ) != transparent {
                    ui.pixel_spec(idx % wi - uxi, idx / wi - uyi)
                } else {
                    old_buf[idx]
                }),
        decreases uh - y,
    {
        let mut x: usize = 0;
        while x < uw
            invariant
                fb.wf(),
                fb.width == old(fb).width,
                fb.height == old(fb).height,
                fb.background_color == old(fb).background_color,
                fb.buffer@.len() == old(fb).buffer@.len(),
                old_buf == old(fb).buffer@,
                wi == old(fb).width as int,
                hi == old(fb).height as int,
                ui.wf(),
                uw == ui.width,
                uh == ui.height,
                uw <= w,
                uh <= h,
                w == old(fb).width,
                h == old(fb).height,
                uxi == ui_x as int,
                uyi == ui_y as int,
                uxi == (wi - ui.width) / 2,
                uyi == hi - ui.height,
                ui_x + uw <= w,
                ui_y + uh == h,
                y < uh,
                x <= uw,
                forall|idx: int|
                    0 <= idx < old_buf.len() ==> fb.buffer@[idx] == (if uxi <= idx % wi < uxi
                        + ui.width && ((uyi <= idx / wi < uyi + y as int) || (idx / wi == uyi
                        + y as int && idx % wi < uxi + x as int)) && ui.pixel_spec(
                        idx % wi - uxi,
                        idx / wi - uyi,
                    ) != transparent {
                        ui.pixel_spec(idx % wi - uxi, idx / wi - uyi)
                    } else {
                        old_buf[idx]
                    }),
            decreases uw - x,
        {
            let color = ui.get_pixel_color(x as u32, y as u32);
            proof {
                assert(color == ui.pixel_spec(x as int, y as int));
            }
            if color != transparent {
                fb.set_current_color(color);
                fb.point(ui_x + x, ui_y + y);
            }
            proof {
                lemma_pixel_index_in_range(wi, hi, (ui_x + x) as int, (ui_y + y) as int);
                lemma_pixel_index_decompose(wi, (ui_x + x) as int, (ui_y + y) as int);
                assert forall|idx: int|
                    0 <= idx < old_buf.len() && #[trigger] (idx % wi) == (ui_x + x) as int
                        && idx / wi == (ui_y + y) as int implies idx == ((ui_y + y) as int) * wi
                    + ((ui_x + x) as int) by {
                    vstd::arithmetic::div_mod::lemma_fundamental_div_mod(idx, wi);
                    assert(wi * (idx / wi) == (idx / wi) * wi) by (nonlinear_arith);
                };
            }
            x = x + 1;
        }
        y = y + 1;
    }
    proof {
        assert forall|px: int, py: int|
            0 <= px < wi && 0 <= py < hi implies fb.buffer@[py * wi + px] == ui_result_pixel(
            *ui,
            transparent,
            old_buf,
            wi,
            hi,
            px,
            py,
        ) by {
            lemma_pixel_index_in_range(wi, hi, px, py);
            lemma_pixel_index_decompose(wi, px, py);
        };
    }
}

} // verus!

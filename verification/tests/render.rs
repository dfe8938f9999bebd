use raycaster::atlas::TextureAtlas;
use raycaster::enemy::Enemy;
use raycaster::framebuffer::Framebuffer;
use raycaster::player::Player;
use raycaster::render::{
    draw_ray, new_z_buffer, render2d, render3d, render_minimap, ColumnRay, DEPTH_FAR, FLOOR_COLOR,
    RAY_COLOR, SKY_COLOR,
};
use raycaster::sprite::{draw_sprite, render_enemies, render_ui, sprite_distance};
use raycaster::texture::Texture;
use raycaster::{RenderConfig, FP, MAX_DIST};

fn game_cfg() -> RenderConfig {
    RenderConfig {
        block_size: 70,
        step: FP,
        max_steps: 16384,
        proj_dist: 70,
        sprite_scale: 70,
        min_sprite_dist: FP,
        behind_threshold: -(FP as i64),
        transparent: 0xED1C24,
    }
}

fn ring_maze() -> Vec<Vec<char>> {
    vec![
        vec!['#', '#', '#'],
        vec!['#', ' ', '#'],
        vec!['#', '#', '#'],
    ]
}

fn solid_texture(w: u32, h: u32, color: u32) -> Texture {
    Texture::new(w, h, vec![color; (w * h) as usize]).unwrap()
}

fn center_player() -> Player {
    Player { x: 105 * FP, y: 105 * FP, a: 0, fov: FP as i64 }
}

#[test]
fn depth_buffer_starts_at_the_sentinel() {
    let z = new_z_buffer(5);
    assert_eq!(z.len(), 5);
    assert!(z.iter().all(|&d| d == DEPTH_FAR));
}

#[test]
fn render3d_fills_every_column_with_a_finite_depth() {
    // Four straight-ahead rays from the ring center: every column's depth
    // becomes the corrected wall distance, half a cell, well below the
    // sentinel.
    let maze = ring_maze();
    let cfg = game_cfg();
    let player = center_player();
    let mut fb = Framebuffer::new(4, 4);
    let mut z = new_z_buffer(4);
    let rays = vec![ColumnRay { dx: FP as i64, dy: 0, cos_fp: FP }; 4];
    let atlas = TextureAtlas::new(solid_texture(1, 1, 0x111111));
    render3d(&mut fb, &maze, &player, &rays, &mut z, &atlas, &cfg);
    for &d in z.iter() {
        assert_eq!(d, 35 * FP);
        assert!(d <= MAX_DIST);
        assert!(d < DEPTH_FAR);
    }
}

#[test]
fn render3d_applies_the_fisheye_correction() {
    // The same cast with a half cosine stores half the raw distance.
    let maze = ring_maze();
    let cfg = game_cfg();
    let player = center_player();
    let mut fb = Framebuffer::new(2, 2);
    let mut z = new_z_buffer(2);
    let rays = vec![ColumnRay { dx: FP as i64, dy: 0, cos_fp: FP / 2 }; 2];
    let atlas = TextureAtlas::new(solid_texture(1, 1, 0x111111));
    render3d(&mut fb, &maze, &player, &rays, &mut z, &atlas, &cfg);
    assert_eq!(z[0], 35 * FP / 2);
}

#[test]
fn wall_strip_height_follows_the_projection_formula() {
    // A wall two cells (140 units) ahead on an 8-row screen: the strip is
    // (8/2 / 140) * 70 = 2 rows tall, centered on the screen midline, sky
    // above and floor below.
    let maze = vec![vec![' ', ' ', '#']];
    let cfg = game_cfg();
    let player = Player { x: 0, y: 35 * FP, a: 0, fov: FP as i64 };
    let mut fb = Framebuffer::new(1, 8);
    let mut z = new_z_buffer(1);
    let rays = vec![ColumnRay { dx: FP as i64, dy: 0, cos_fp: FP }];
    let atlas = TextureAtlas::new(solid_texture(1, 1, 0x111111));
    render3d(&mut fb, &maze, &player, &rays, &mut z, &atlas, &cfg);
    assert_eq!(z[0], 140 * FP);
    for row in 0..3usize {
        assert_eq!(fb.buffer[row], SKY_COLOR);
    }
    assert_eq!(fb.buffer[3], 0x111111);
    assert_eq!(fb.buffer[4], 0x111111);
    for row in 5..8usize {
        assert_eq!(fb.buffer[row], FLOOR_COLOR);
    }
}

#[test]
fn sprite_distance_is_euclidean() {
    let p = Player { x: 0, y: 0, a: 0, fov: FP as i64 };
    let e = Enemy::new(3 * FP, 4 * FP);
    assert_eq!(sprite_distance(&p, &e), 5 * FP);
}

#[test]
fn nearer_sprite_wins_whatever_the_draw_order() {
    // Two sprites straight ahead at 10 and 20 units sharing every screen
    // column: after both draws, only the nearer one shows, whether the
    // farther one was drawn first or last.
    let cfg = game_cfg();
    let player = Player { x: 0, y: 0, a: 0, fov: FP as i64 };
    let near = Enemy::new(10 * FP, 0);
    let far = Enemy::new(20 * FP, 0);
    let near_tex = solid_texture(1, 1, 0x00AA00);
    let far_tex = solid_texture(1, 1, 0xAA0000);

    // Farther first, nearer second.
    let mut fb1 = Framebuffer::new(8, 8);
    let mut z1 = new_z_buffer(8);
    draw_sprite(&mut fb1, &player, &far, &mut z1, 0, &far_tex, &cfg);
    draw_sprite(&mut fb1, &player, &near, &mut z1, 0, &near_tex, &cfg);

    // Nearer first, farther second.
    let mut fb2 = Framebuffer::new(8, 8);
    let mut z2 = new_z_buffer(8);
    draw_sprite(&mut fb2, &player, &near, &mut z2, 0, &near_tex, &cfg);
    draw_sprite(&mut fb2, &player, &far, &mut z2, 0, &far_tex, &cfg);

    assert!(fb1.buffer.iter().all(|&p| p == 0x00AA00));
    assert_eq!(fb1.buffer, fb2.buffer);
    assert!(z1.iter().all(|&d| d == 10 * FP));
    assert_eq!(z1, z2);
}

#[test]
fn sprite_is_clipped_by_a_nearer_depth_column() {
    // A column already nearer than the sprite keeps its pixels and depth.
    let cfg = game_cfg();
    let player = Player { x: 0, y: 0, a: 0, fov: FP as i64 };
    let e = Enemy::new(10 * FP, 0);
    let tex = solid_texture(1, 1, 0x00AA00);
    let mut fb = Framebuffer::new(4, 4);
    let mut z = new_z_buffer(4);
    z[1] = 3 * FP; // a wall nearer than the sprite in column 1
    draw_sprite(&mut fb, &player, &e, &mut z, 0, &tex, &cfg);
    for y in 0..4usize {
        assert_eq!(fb.buffer[y * 4 + 1], 0);
        assert_eq!(fb.buffer[y * 4 + 2], 0x00AA00);
    }
    assert_eq!(z[1], 3 * FP);
    assert_eq!(z[2], 10 * FP);
}

#[test]
fn transparent_sprite_pixels_are_never_written() {
    let cfg = game_cfg();
    let player = Player { x: 0, y: 0, a: 0, fov: FP as i64 };
    let e = Enemy::new(10 * FP, 0);
    let tex = solid_texture(1, 1, cfg.transparent);
    let mut fb = Framebuffer::new(4, 4);
    let mut z = new_z_buffer(4);
    let before = fb.buffer.clone();
    draw_sprite(&mut fb, &player, &e, &mut z, 0, &tex, &cfg);
    assert_eq!(fb.buffer, before);
    // The covered columns' depths still record the sprite.
    assert_eq!(z[0], 10 * FP);
}

#[test]
fn sprites_behind_or_too_close_are_skipped() {
    let cfg = game_cfg();
    let player = Player { x: 0, y: 0, a: 0, fov: FP as i64 };
    let tex = solid_texture(1, 1, 0x00AA00);

    let mut fb = Framebuffer::new(4, 4);
    let mut z = new_z_buffer(4);
    let behind = Enemy::new(10 * FP, 0);
    draw_sprite(&mut fb, &player, &behind, &mut z, -2 * FP as i64, &tex, &cfg);
    assert!(fb.buffer.iter().all(|&p| p == 0));
    assert!(z.iter().all(|&d| d == DEPTH_FAR));

    let too_close = Enemy::new(FP / 2, 0);
    draw_sprite(&mut fb, &player, &too_close, &mut z, 0, &tex, &cfg);
    assert!(fb.buffer.iter().all(|&p| p == 0));
    assert!(z.iter().all(|&d| d == DEPTH_FAR));
}

#[test]
fn render_enemies_draws_each_against_the_buffer() {
    let cfg = game_cfg();
    let player = Player { x: 0, y: 0, a: 0, fov: FP as i64 };
    let enemies = vec![Enemy::new(20 * FP, 0), Enemy::new(10 * FP, 0)];
    let bearings = vec![0i64, 0i64];
    let tex = solid_texture(1, 1, 0x00AA00);
    let mut fb = Framebuffer::new(4, 4);
    let mut z = new_z_buffer(4);
    render_enemies(&mut fb, &player, &enemies, &bearings, &mut z, &tex, &cfg);
    assert!(z.iter().all(|&d| d == 10 * FP));
}

#[test]
fn render_ui_skips_the_color_key() {
    let mut fb = Framebuffer::new(4, 4);
    // A 2x2 overlay: one key-colored pixel, three opaque ones.
    let pixels = vec![0xED1C24, 0x111111, 0x222222, 0x333333];
    let ui = Texture::new(2, 2, pixels).unwrap();
    render_ui(&mut fb, &ui, 0xED1C24);
    // The overlay sits centered at the bottom: x from 1, y from 2.
    // Texture pixels are column-major: (0,0) key, (0,1), (1,0), (1,1).
    assert_eq!(fb.buffer[2 * 4 + 1], 0); // key color left unwritten
    assert_eq!(fb.buffer[3 * 4 + 1], 0x111111);
    assert_eq!(fb.buffer[2 * 4 + 2], 0x222222);
    assert_eq!(fb.buffer[3 * 4 + 2], 0x333333);
    assert_eq!(fb.buffer[0], 0);
}

#[test]
fn render2d_paints_cells_in_their_overview_colors() {
    // A '+' cell paints its whole 70-pixel square; the player marker is
    // drawn over the open cell in the ray color.
    let maze = vec![vec!['+', '+'], vec!['+', ' ']];
    let cfg = game_cfg();
    let player = center_player();
    let dirs: Vec<(i64, i64)> = Vec::new();
    let mut fb = Framebuffer::new(256, 256);
    render2d(&mut fb, &maze, &player, &dirs, &cfg);
    assert_eq!(fb.buffer[10 * 256 + 10], 0xFF00FF); // inside cell (0, 0)
    assert_eq!(fb.buffer[10 * 256 + 80], 0xFF00FF); // inside cell (0, 1)
    assert_eq!(fb.buffer[105 * 256 + 105], RAY_COLOR); // the player marker
    assert_eq!(fb.buffer[200 * 256 + 200], 0); // outside the grid
}

#[test]
fn minimap_paints_cells_and_marker() {
    // Each minimap square takes its cell's palette color; the red marker
    // sits on the player's cell.
    let maze = vec![vec!['+', 'g'], vec![' ', '|']];
    let cfg = game_cfg();
    let player = Player { x: 0, y: 0, a: 0, fov: FP as i64 };
    let mut fb = Framebuffer::new(64, 64);
    render_minimap(&mut fb, &maze, &player, &cfg, 20, 2, 2);
    assert_eq!(fb.buffer[3 * 64 + 3], 0x888888); // '+' cell
    assert_eq!(fb.buffer[3 * 64 + 13], 0x00FF00); // 'g' cell
    assert_eq!(fb.buffer[13 * 64 + 13], 0x888888); // '|' cell
    assert_eq!(fb.buffer[7 * 64 + 7], 0xFF0000); // the player marker
}

#[test]
fn minimap_uses_only_its_palette() {
    let maze = ring_maze();
    let cfg = game_cfg();
    let player = center_player();
    let mut fb = Framebuffer::new(64, 64);
    render_minimap(&mut fb, &maze, &player, &cfg, 30, 2, 2);
    for &p in fb.buffer.iter() {
        assert!(p == 0 || p == 0x888888 || p == 0x00FF00 || p == 0x000000 || p == 0xFF0000);
    }
    // The player marker is drawn in red at the middle cell.
    let cell = 10; // 30 / 3 rows
    let center = 2 + cell + cell / 2;
    assert_eq!(fb.buffer[center * 64 + center], 0xFF0000);
}

#[test]
fn draw_ray_paints_free_samples_in_the_ray_color() {
    let maze = ring_maze();
    let cfg = game_cfg();
    let mut fb = Framebuffer::new(256, 256);
    fb.set_current_color(0x123456);
    draw_ray(&maze, &mut fb, 105 * FP, 105 * FP, FP as i64, 0, &cfg);
    // Samples run from the center 35 units toward the east wall.
    assert_eq!(fb.buffer[105 * 256 + 105], RAY_COLOR);
    assert_eq!(fb.buffer[105 * 256 + 139], RAY_COLOR);
    assert_eq!(fb.buffer[105 * 256 + 141], 0);
    assert_eq!(fb.current_color, RAY_COLOR);
}

#[test]
fn render2d_draws_cells_player_and_fan() {
    let maze = ring_maze();
    let cfg = game_cfg();
    let player = center_player();
    let dirs = vec![(FP as i64, 0i64), (0i64, FP as i64)];
    let mut fb = Framebuffer::new(256, 256);
    render2d(&mut fb, &maze, &player, &dirs, &cfg);
    // A wall cell pixel takes the flat overview color of '#': the default
    // black, so check a colored wall instead through the player marker.
    assert_eq!(fb.buffer[105 * 256 + 105], RAY_COLOR);
}

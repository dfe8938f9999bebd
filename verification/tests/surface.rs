use raycaster::atlas::{cell_to_texture_color, TextureAtlas};
use raycaster::framebuffer::{Font, Framebuffer};
use raycaster::render::draw_cell;
use raycaster::screen::Screen;
use raycaster::texture::{pack_color, texture_from_rgb, Texture, SENTINEL_COLOR};

fn solid_texture(w: u32, h: u32, color: u32) -> Texture {
    let pixels = vec![color; (w * h) as usize];
    Texture::new(w, h, pixels).unwrap()
}

#[test]
fn framebuffer_starts_black() {
    let fb = Framebuffer::new(4, 3);
    assert_eq!(fb.width, 4);
    assert_eq!(fb.height, 3);
    assert_eq!(fb.buffer.len(), 12);
    assert!(fb.buffer.iter().all(|&p| p == 0));
}

#[test]
fn point_writes_the_current_color_in_bounds() {
    let mut fb = Framebuffer::new(4, 3);
    fb.set_current_color(0xABCDEF);
    fb.point(2, 1);
    assert_eq!(fb.buffer[1 * 4 + 2], 0xABCDEF);
    assert_eq!(fb.buffer[0], 0);
}

#[test]
fn point_out_of_bounds_is_ignored() {
    let mut fb = Framebuffer::new(4, 3);
    let before = fb.buffer.clone();
    fb.set_current_color(0xABCDEF);
    fb.point(4, 0);
    fb.point(0, 3);
    fb.point(100, 100);
    assert_eq!(fb.buffer, before);
}

#[test]
fn clear_fills_with_the_background_color() {
    let mut fb = Framebuffer::new(3, 3);
    fb.set_current_color(0x123456);
    fb.point(1, 1);
    fb.set_background_color(0x2B2E3D);
    fb.clear();
    assert!(fb.buffer.iter().all(|&p| p == 0x2B2E3D));
}

#[test]
fn pack_color_builds_packed_rgb() {
    assert_eq!(pack_color(0x11, 0x22, 0x33), 0x112233);
    assert_eq!(pack_color(0, 0, 0), 0);
    assert_eq!(pack_color(255, 255, 255), 0xFFFFFF);
}

#[test]
fn texture_from_rgb_keeps_every_pixel() {
    // A 2x1 image: red then green, row-major byte triples.
    let rgb = vec![255, 0, 0, 0, 255, 0];
    let t = texture_from_rgb(2, 1, &rgb).unwrap();
    assert_eq!(t.get_pixel_color(0, 0), 0xFF0000);
    assert_eq!(t.get_pixel_color(1, 0), 0x00FF00);
}

#[test]
fn texture_lookup_out_of_range_gives_the_sentinel() {
    let t = solid_texture(2, 2, 0x101010);
    assert_eq!(t.get_pixel_color(2, 0), SENTINEL_COLOR);
    assert_eq!(t.get_pixel_color(0, 2), SENTINEL_COLOR);
    assert_eq!(t.get_pixel_color(0, 0), 0x101010);
    assert_eq!(SENTINEL_COLOR, 0xFF00FF);
}

#[test]
fn texture_with_wrong_pixel_count_is_rejected() {
    assert!(Texture::new(2, 2, vec![0; 3]).is_none());
    assert!(Texture::new(2, 2, vec![0; 4]).is_some());
    assert!(texture_from_rgb(2, 2, &vec![0; 11]).is_none());
    assert!(texture_from_rgb(2, 2, &vec![0; 12]).is_some());
}

#[test]
fn atlas_maps_cell_codes_to_their_textures() {
    let mut atlas = TextureAtlas::new(solid_texture(1, 1, 0x000033));
    atlas.register('+', solid_texture(1, 1, 0x111111));
    atlas.register('-', solid_texture(1, 1, 0x222222));
    assert_eq!(cell_to_texture_color(&atlas, '+', 0, 0), 0x111111);
    assert_eq!(cell_to_texture_color(&atlas, '-', 0, 0), 0x222222);
    // An unmapped code falls back to the default texture.
    assert_eq!(cell_to_texture_color(&atlas, '?', 0, 0), 0x000033);
}

#[test]
fn atlas_out_of_range_lookup_gives_the_sentinel() {
    let mut atlas = TextureAtlas::new(solid_texture(1, 1, 0x000033));
    atlas.register('+', solid_texture(1, 1, 0x111111));
    assert_eq!(cell_to_texture_color(&atlas, '+', 5, 5), SENTINEL_COLOR);
}

#[test]
fn draw_cell_paints_the_square_and_nothing_else() {
    let mut fb = Framebuffer::new(4, 4);
    draw_cell(&mut fb, 1, 1, 2, '+');
    let color = 0xFF00FF; // the overview color of '+'
    for y in 0..4usize {
        for x in 0..4usize {
            let inside = (1..3).contains(&x) && (1..3).contains(&y);
            let expected = if inside { color } else { 0 };
            assert_eq!(fb.buffer[y * 4 + x], expected);
        }
    }
}

#[test]
fn draw_cell_of_empty_floor_changes_nothing() {
    let mut fb = Framebuffer::new(4, 4);
    fb.set_current_color(0x777777);
    let before = fb.buffer.clone();
    draw_cell(&mut fb, 0, 0, 4, ' ');
    assert_eq!(fb.buffer, before);
}

#[test]
fn draw_text_writes_only_the_current_color() {
    let mut fb = Framebuffer::new(32, 16);
    // A font whose glyphs are all-solid rows: every glyph pixel is set.
    let font = Font::new(vec![0xFF; 2048]).unwrap();
    fb.set_current_color(0x00FF77);
    fb.draw_text("A", 0, 0, 1, &font);
    // The 8x8 block at the origin is fully painted.
    for y in 0..8usize {
        for x in 0..8usize {
            assert_eq!(fb.buffer[y * 32 + x], 0x00FF77);
        }
    }
    // Pixels past the glyph stay black.
    assert_eq!(fb.buffer[9], 0);
}

#[test]
fn a_half_font_covers_only_its_glyphs() {
    // 1024 font bytes cover character codes below 128; characters beyond
    // the coverage are skipped, not indexed out of range.
    let font = Font::new(vec![0xFF; 1024]).unwrap();
    assert!(Font::new(vec![0; 1023]).is_none());
    let mut fb = Framebuffer::new(32, 16);
    fb.set_current_color(0x00FF77);
    fb.draw_text("\u{e9}", 0, 0, 1, &font); // one code above the coverage
    assert!(fb.buffer.iter().all(|&p| p == 0));
    fb.draw_text("A", 0, 0, 1, &font);
    assert_eq!(fb.buffer[0], 0x00FF77);
}

#[test]
fn draw_text_stays_inside_its_line_band() {
    let font = Font::new(vec![0xFF; 2048]).unwrap();
    let mut fb = Framebuffer::new(32, 32);
    fb.set_current_color(0x00FF77);
    fb.draw_text("AB", 4, 8, 2, &font);
    for (idx, &p) in fb.buffer.iter().enumerate() {
        if p != 0 {
            let row = idx / 32;
            let col = idx % 32;
            assert!((8..24).contains(&row) && col >= 4);
        }
    }
}

#[test]
fn screen_render_stretches_the_background_and_draws_text() {
    let mut fb = Framebuffer::new(8, 8);
    let mut screen = Screen::new();
    screen.set_background(solid_texture(2, 2, 0x334455));
    screen.render(&mut fb, &Font::new(vec![0; 2048]).unwrap());
    assert!(fb.buffer.iter().all(|&p| p == 0x334455));

    let font = Font::new(vec![0xFF; 2048]).unwrap();
    screen.add_text("hi", 0, 0, 1, 0xFFFFFF);
    screen.render(&mut fb, &font);
    assert_eq!(fb.buffer[0], 0xFFFFFF);
}

#[test]
fn screen_without_background_clears() {
    let mut fb = Framebuffer::new(4, 4);
    fb.set_background_color(0x0000AA);
    fb.set_current_color(0x123456);
    fb.point(2, 2);
    let screen = Screen::new();
    screen.render(&mut fb, &Font::new(vec![0; 2048]).unwrap());
    assert!(fb.buffer.iter().all(|&p| p == 0x0000AA));
}

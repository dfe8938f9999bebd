//! Full-screen pages (menus, win and lose views): an optional scaled
//! background image plus lines of text.

use vstd::prelude::*;
use crate::framebuffer::{Font, Framebuffer};
use crate::texture::Texture;

verus! {

/// One line of text to draw: content, position, glyph scale and color.
pub struct TextItem {
    pub content: String,
    pub x: usize,
    pub y: usize,
    pub scale: usize,
    pub color: u32,
}

impl TextItem {
    /// Bounds under which text drawing cannot overflow an index.
    pub open spec fn wf(&self) -> bool {
        &&& 1 <= self.scale <= 1024
        &&& self.x <= 32768
        &&& self.y <= 32768
    }
}

/// The page's base pixel at `(px, py)`: the background image stretched
/// over the surface by nearest sampling, or the surface's clear color
/// when the page has none.
pub open spec fn page_base_pixel(
    background: Option<Texture>,
    clear: u32,
    w: int,
    h: int,
    px: int,
    py: int,
) -> u32 {
    match background {
        Some(bg) => bg.pixel_spec(px * bg.width / w, py * bg.height / h),
        None => clear,
    }
}

/// The color is one of the page's queued text colors.
pub open spec fn is_text_color(text: Seq<TextItem>, c: u32) -> bool {
    exists|t: int| 0 <= t < text.len() && text[t].color == c
}

/// A full-screen page: an optional background image, stretched over the
/// whole surface, and a list of text lines drawn over it.
pub struct Screen {
    pub background: Option<Texture>,
    pub text: Vec<TextItem>,
}

impl Screen {
    pub open spec fn wf(&self) -> bool {
        &&& match self.background {
            Some(t) => t.wf(),
            None => true,
        }
        &&& forall|i: int| 0 <= i < self.text@.len() ==> (#[trigger] self.text@[i]).wf()
    }

    /// An empty page: no background, no text.
    pub fn new() -> (s: Screen)
        ensures
            s.wf(),
            s.background is None,
            s.text@.len() == 0,
    {
        Screen { background: None, text: Vec::new() }
    }

    /// Sets the background image.
    pub fn set_background(&mut self, texture: Texture)
        requires
            old(self).wf(),
            texture.wf(),
        ensures
            final(self).wf(),
            final(self).background == Some(texture),
            final(self).text@ == old(self).text@,
    {
        self.background = Some(texture);
    }

    /// Appends a line of text.
    pub fn add_text(&mut self, content: &str, x: usize, y: usize, scale: usize, color: u32)
        requires
            old(self).wf(),
            1 <= scale <= 1024,
            x <= 32768,
            y <= 32768,
        ensures
            final(self).wf(),
            final(self).background == old(self).background,
            final(self).text@.len() == old(self).text@.len() + 1,
            final(self).text@[final(self).text@.len() - 1].content@ == content@,
            final(self).text@[final(self).text@.len() - 1].x == x,
            final(self).text@[final(self).text@.len() - 1].y == y,
            final(self).text@[final(self).text@.len() - 1].scale == scale,
            final(self).text@[final(self).text@.len() - 1].color == color,
            forall|i: int|
                0 <= i < old(self).text@.len() ==> final(self).text@[i] == old(self).text@[i],
    {
        let item = TextItem { content: content.to_owned(), x, y, scale, color };
        self.text.push(item);
    }

    /// Draws the page: the background stretched to the surface (or a
    /// plain clear when there is none), then every text line in its own
    /// color — so every pixel ends as the page's base or as one of the
    /// queued text colors.
    pub fn render(&self, fb: &mut Framebuffer, font: &Font)
        requires
            old(fb).wf(),
            self.wf(),
            font.wf(),
        ensures
            final(fb).wf(),
            final(fb).width == old(fb).width,
            final(fb).height == old(fb).height,
            final(fb).background_color == old(fb).background_color,
            final(fb).buffer@.len() == old(fb).buffer@.len(),
            forall|px: int, py: int|
                0 <= px < old(fb).width && 0 <= py < old(fb).height ==> final(fb).buffer@[py * (
                old(fb).width as int) + px] == #[trigger] page_base_pixel(
                    self.background,
                    old(fb).background_color,
                    old(fb).width as int,
                    old(fb).height as int,
                    px,
                    py,
                ) || is_text_color(
                    self.text@,
                    final(fb).buffer@[py * (old(fb).width as int) + px],
                ),
    {
        let ghost wi = old(fb).width as int;
        let ghost hi = old(fb).height as int;
        let ghost old_buf = old(fb).buffer@;
        match &self.background {
            Some(bg) => {
                let mut y: usize = 0;
                while y < fb.height
                    invariant
                        fb.wf(),
                        fb.width == old(fb).width,
                        fb.height == old(fb).height,
                        fb.background_color == old(fb).background_color,
                        fb.buffer@.len() == old(fb).buffer@.len(),
                        wi == old(fb).width as int,
                        hi == old(fb).height as int,
                        old_buf == old(fb).buffer@,
                        bg.wf(),
                        self.background == Some(*bg),
                        y <= fb.height,
                        forall|idx: int|
                            0 <= idx < old_buf.len() ==> fb.buffer@[idx] == (if idx / wi
                                < y as int {
                                bg.pixel_spec(
                                    (idx % wi) * bg.width / wi,
                                    (idx / wi) * bg.height / hi,
                                )
                            } else {
                                old_buf[idx]
                            }),
                    decreases fb.height - y,
                {
                    let mut x: usize = 0;
                    while x < fb.width
                        invariant
                            fb.wf(),
                            fb.width == old(fb).width,
                            fb.height == old(fb).height,
                            fb.background_color == old(fb).background_color,
                            fb.buffer@.len() == old(fb).buffer@.len(),
                            wi == old(fb).width as int,
                            hi == old(fb).height as int,
                            old_buf == old(fb).buffer@,
                            bg.wf(),
                            self.background == Some(*bg),
                            y < fb.height,
                            x <= fb.width,
                            forall|idx: int|
                                0 <= idx < old_buf.len() ==> fb.buffer@[idx] == (if idx / wi
                                    < y as int || (idx / wi == y as int && idx % wi
                                    < x as int) {
                                    bg.pixel_spec(
                                        (idx % wi) * bg.width / wi,
                                        (idx / wi) * bg.height / hi,
                                    )
                                } else {
                                    old_buf[idx]
                                }),
                        decreases fb.width - x,
                    {
                        proof {
                            assert((x as int) * (bg.width as int) <= 0x4000_0000)
                                by (nonlinear_arith)
                                requires
                                    0 <= (x as int) <= 32768,
                                    0 <= (bg.width as int) <= 32768,
                            ;
                            assert((y as int) * (bg.height as int) <= 0x4000_0000)
                                by (nonlinear_arith)
                                requires
                                    0 <= (y as int) <= 32768,
                                    0 <= (bg.height as int) <= 32768,
                            ;
                            vstd::arithmetic::div_mod::lemma_div_nonincreasing(
                                (x as int) * (bg.width as int),
                                wi,
                            );
                            vstd::arithmetic::div_mod::lemma_div_nonincreasing(
                                (y as int) * (bg.height as int),
                                hi,
                            );
                            vstd::arithmetic::div_mod::lemma_div_pos_is_pos(
                                (x as int) * (bg.width as int),
                                wi,
                            );
                            vstd::arithmetic::div_mod::lemma_div_pos_is_pos(
                                (y as int) * (bg.height as int),
                                hi,
                            );
                        }
                        let tx = ((x as u64) * (bg.width as u64) / (fb.width as u64)) as u32;
                        let ty = ((y as u64) * (bg.height as u64) / (fb.height as u64)) as u32;
                        let color = bg.get_pixel_color(tx, ty);
                        proof {
                            assert(color == bg.pixel_spec(
                                (x as int) * bg.width / wi,
                                (y as int) * bg.height / hi,
                            ));
                        }
                        fb.set_current_color(color);
                        fb.point(x, y);
                        proof {
                            crate::framebuffer::lemma_pixel_index_in_range(
                                wi,
                                hi,
                                x as int,
                                y as int,
                            );
                            crate::framebuffer::lemma_pixel_index_decompose(
                                wi,
                                x as int,
                                y as int,
                            );
                            assert forall|idx: int|
                                0 <= idx < old_buf.len() && #[trigger] (idx % wi) == x as int
                                    && idx / wi == y as int implies idx == (y as int) * wi + (
                            x as int) by {
                                vstd::arithmetic::div_mod::lemma_fundamental_div_mod(idx, wi);
                                assert(wi * (idx / wi) == (idx / wi) * wi) by (nonlinear_arith);
                            };
                        }
                        x = x + 1;
                    }
                    y = y + 1;
                }
            },
            None => {
                fb.clear();
            },
        }
        proof {
            assert forall|idx: int|
                0 <= idx < old_buf.len() implies fb.buffer@[idx] == page_base_pixel(
                self.background,
                old(fb).background_color,
                wi,
                hi,
                idx % wi,
                idx / wi,
            ) by {
                vstd::arithmetic::div_mod::lemma_multiply_divide_lt(idx, wi, hi);
                vstd::arithmetic::div_mod::lemma_div_pos_is_pos(idx, wi);
            };
        }
        let n = self.text.len();
        let mut i: usize = 0;
        while i < n
            invariant
                fb.wf(),
                fb.width == old(fb).width,
                fb.height == old(fb).height,
                fb.background_color == old(fb).background_color,
                fb.buffer@.len() == old(fb).buffer@.len(),
                wi == old(fb).width as int,
                hi == old(fb).height as int,
                old_buf == old(fb).buffer@,
                self.wf(),
                font.wf(),
                n == self.text@.len(),
                i <= n,
                forall|idx: int|
                    0 <= idx < old_buf.len() ==> fb.buffer@[idx] == #[trigger] page_base_pixel(
                        self.background,
                        old(fb).background_color,
                        wi,
                        hi,
                        idx % wi,
                        idx / wi,
                    ) || is_text_color(self.text@, fb.buffer@[idx]),
            decreases n - i,
        {
            let item = &self.text[i];
            fb.set_current_color(item.color);
            let ghost prev = fb.buffer@;
            fb.draw_text(item.content.as_str(), item.x, item.y, item.scale, font);
            proof {
                assert forall|idx: int|
                    0 <= idx < old_buf.len() && fb.buffer@[idx] != prev[idx] implies is_text_color(
                    self.text@,
                    fb.buffer@[idx],
                ) by {
                    assert(self.text@[i as int].color == item.color);
                };
            }
            i = i + 1;
        }
        proof {
            assert forall|px: int, py: int|
                0 <= px < wi && 0 <= py < hi implies fb.buffer@[py * wi + px]
                == page_base_pixel(
                self.background,
                old(fb).background_color,
                wi,
                hi,
                px,
                py,
            ) || is_text_color(self.text@, fb.buffer@[py * wi + px]) by {
                crate::framebuffer::lemma_pixel_index_in_range(wi, hi, px, py);
                crate::framebuffer::lemma_pixel_index_decompose(wi, px, py);
            };
        }
    }
}

} // verus!

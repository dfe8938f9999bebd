//! The pixel surface every renderer component draws onto, and the bitmap
//! font its text drawing uses.

use vstd::prelude::*;
use vstd::string::StrSliceExecFns;

verus! {

/// An 8x8 bitmap font: eight row bytes per glyph, covering the leading
/// character codes (1024 bytes cover 128 codes, 2048 bytes all 256),
/// loaded from outside as plain bytes. Text drawing skips characters the
/// font does not cover.
pub struct Font {
    pub data: Vec<u8>,
}

impl Font {
    /// A whole number of eight-byte glyphs.
    pub open spec fn wf(&self) -> bool {
        self.data@.len() % 8 == 0
    }

    /// Wraps font bytes; rejects data that is not a whole number of
    /// glyphs.
    pub fn new(data: Vec<u8>) -> (r: Option<Font>)
        ensures
            match r {
                Some(f) => f.wf() && f.data@ == data@,
                None => data@.len() % 8 != 0,
            },
    {
        if data.len() % 8 != 0 {
            None
        } else {
            Some(Font { data })
        }
    }
}

/// A `width` x `height` surface of packed 24-bit RGB pixels, row-major:
/// the pixel at column `x`, row `y` sits at index `y * width + x`.
/// Writes outside the bounds are ignored, so drawing code may clip lazily.
pub struct Framebuffer {
    pub width: usize,
    pub height: usize,
    pub buffer: Vec<u32>,
    pub background_color: u32,
    pub current_color: u32,
}

impl Framebuffer {
    /// One pixel per cell, and dimensions small enough that every index
    /// computation fits the machine word.
    pub open spec fn wf(&self) -> bool {
        &&& self.buffer@.len() == self.width * self.height
        &&& self.width <= 32768
        &&& self.height <= 32768
    }

    /// A fresh surface, every pixel black.
    pub fn new(width: usize, height: usize) -> (fb: Framebuffer)
        requires
            width <= 32768,
            height <= 32768,
        ensures
            fb.wf(),
            fb.width == width,
            fb.height == height,
            fb.background_color == 0,
            fb.current_color == 0xFFFFFF,
            forall|i: int| 0 <= i < fb.buffer@.len() ==> fb.buffer@[i] == 0,
    {
        assert(width * height <= 0x4000_0000) by (nonlinear_arith)
            requires width <= 32768 && height <= 32768;
        let total = width * height;
        let mut buffer: Vec<u32> = Vec::new();
        while buffer.len() < total
            invariant
                buffer@.len() <= total,
                forall|i: int| 0 <= i < buffer@.len() ==> buffer@[i] == 0,
            decreases total - buffer.len(),
        {
            buffer.push(0);
        }
        Framebuffer { width, height, buffer, background_color: 0x000000, current_color: 0xFFFFFF }
    }

    /// Fills the whole surface with the background color.
    pub fn clear(&mut self)
        requires
            old(self).wf(),
        ensures
            final(self).wf(),
            final(self).width == old(self).width,
            final(self).height == old(self).height,
            final(self).background_color == old(self).background_color,
            final(self).current_color == old(self).current_color,
            final(self).buffer@.len() == old(self).buffer@.len(),
            forall|i: int|
                0 <= i < final(self).buffer@.len() ==> final(self).buffer@[i]
                    == old(self).background_color,
    {
        let color = self.background_color;
        let total = self.buffer.len();
        let mut idx: usize = 0;
        while idx < total
            invariant
                idx <= total,
                self.buffer@.len() == total,
                self.width == old(self).width,
                self.height == old(self).height,
                self.background_color == old(self).background_color,
                self.current_color == old(self).current_color,
                color == old(self).background_color,
                old(self).wf(),
                total == old(self).buffer@.len(),
                forall|i: int| 0 <= i < idx ==> self.buffer@[i] == color,
            decreases total - idx,
        {
            self.buffer[idx] = color;
            idx = idx + 1;
        }
    }

    /// Writes the current color at `(x, y)`; out-of-bounds writes do
    /// nothing.
    pub fn point(&mut self, x: usize, y: usize)
        requires
            old(self).wf(),
        ensures
            final(self).wf(),
            final(self).width == old(self).width,
            final(self).height == old(self).height,
            final(self).background_color == old(self).background_color,
            final(self).current_color == old(self).current_color,
            final(self).buffer@.len() == old(self).buffer@.len(),
            x < old(self).width && y < old(self).height ==> final(self).buffer@ == old(
                self,
            ).buffer@.update(y * old(self).width + x, old(self).current_color),
            !(x < old(self).width && y < old(self).height) ==> final(self).buffer@ == old(
                self,
            ).buffer@,
    {
        if x < self.width && y < self.height {
            proof {
                lemma_pixel_index_in_range(self.width as int, self.height as int, x as int, y as int);
            }
            let index = y * self.width + x;
            let color = self.current_color;
            self.buffer[index] = color;
        }
    }

    /// Sets the color `clear` will fill with.
    pub fn set_background_color(&mut self, color: u32)
        ensures
            final(self).width == old(self).width,
            final(self).height == old(self).height,
            final(self).buffer@ == old(self).buffer@,
            final(self).background_color == color,
            final(self).current_color == old(self).current_color,
    {
        self.background_color = color;
    }

    /// Draws a line of text in the current color, each glyph scaled up by
    /// `scale`; characters the font does not cover are skipped, and
    /// pixels falling outside the surface are clipped. Every pixel it
    /// changes takes the current color and lies inside the line's band:
    /// the glyph rows below `y`, at or right of the start column `x`.
    pub fn draw_text(&mut self, text: &str, x: usize, y: usize, scale: usize, font: &Font)
        requires
            old(self).wf(),
            font.wf(),
            1 <= scale <= 1024,
            x <= 32768,
            y <= 32768,
        ensures
            final(self).wf(),
            final(self).width == old(self).width,
            final(self).height == old(self).height,
            final(self).background_color == old(self).background_color,
            final(self).current_color == old(self).current_color,
            final(self).buffer@.len() == old(self).buffer@.len(),
            forall|i: int|
                0 <= i < old(self).buffer@.len() && final(self).buffer@[i] != old(
                    self,
                ).buffer@[i] ==> final(self).buffer@[i] == old(self).current_color,
            forall|i: int|
                0 <= i < old(self).buffer@.len() && final(self).buffer@[i] != old(
                    self,
                ).buffer@[i] ==> y <= i / (old(self).width as int) < y + 8 * scale && i % (old(
                    self,
                ).width as int) >= x,
    {
        let n = text.unicode_len();
        let mut cursor_x = x;
        let mut ci: usize = 0;
        while ci < n
            invariant
                self.wf(),
                self.width == old(self).width,
                self.height == old(self).height,
                self.background_color == old(self).background_color,
                self.current_color == old(self).current_color,
                self.buffer@.len() == old(self).buffer@.len(),
                font.wf(),
                1 <= scale <= 1024,
                y <= 32768,
                ci <= n,
                n == text@.len(),
                cursor_x <= 32768 + 32768,
                forall|i: int|
                    0 <= i < old(self).buffer@.len() && self.buffer@[i] != old(self).buffer@[i]
                        ==> self.buffer@[i] == old(self).current_color,
                cursor_x >= x,
                forall|i: int|
                    0 <= i < old(self).buffer@.len() && self.buffer@[i] != old(self).buffer@[i]
                        ==> y <= i / (old(self).width as int) < y + 8 * scale && i % (old(
                        self,
                    ).width as int) >= x,
            decreases n - ci,
        {
            if cursor_x > self.width {
                return ;
            }
            let ch = text.get_char(ci);
            let code = ch as u32;
            if code < 256 && ((code as usize) * 8) + 8 <= font.data.len() {
                let base = (code as usize) * 8;
                let mut row: usize = 0;
                while row < 8
                    invariant
                        self.wf(),
                        self.width == old(self).width,
                        self.height == old(self).height,
                        self.background_color == old(self).background_color,
                        self.current_color == old(self).current_color,
                        self.buffer@.len() == old(self).buffer@.len(),
                        font.wf(),
                        1 <= scale <= 1024,
                        y <= 32768,
                        cursor_x <= 32768 + 32768,
                        base <= 2040,
                        base + 8 <= font.data@.len(),
                        row <= 8,
                        forall|i: int|
                            0 <= i < old(self).buffer@.len() && self.buffer@[i] != old(
                                self,
                            ).buffer@[i] ==> self.buffer@[i] == old(self).current_color,
                        cursor_x >= x,
                        forall|i: int|
                            0 <= i < old(self).buffer@.len() && self.buffer@[i] != old(
                                self,
                            ).buffer@[i] ==> y <= i / (old(self).width as int) < y + 8 * scale
                                && i % (old(self).width as int) >= x,
                    decreases 8 - row,
                {
                    let byte = font.data[base + row];
                    let mut col: usize = 0;
                    while col < 8
                        invariant
                            self.wf(),
                            self.width == old(self).width,
                            self.height == old(self).height,
                            self.background_color == old(self).background_color,
                            self.current_color == old(self).current_color,
                            self.buffer@.len() == old(self).buffer@.len(),
                            1 <= scale <= 1024,
                            y <= 32768,
                            cursor_x <= 32768 + 32768,
                            row < 8,
                            col <= 8,
                            forall|i: int|
                                0 <= i < old(self).buffer@.len() && self.buffer@[i] != old(
                                    self,
                                ).buffer@[i] ==> self.buffer@[i] == old(self).current_color,
                            cursor_x >= x,
                            forall|i: int|
                                0 <= i < old(self).buffer@.len() && self.buffer@[i] != old(
                                    self,
                                ).buffer@[i] ==> y <= i / (old(self).width as int) < y + 8
                                    * scale && i % (old(self).width as int) >= x,
                        decreases 8 - col,
                    {
                        if (byte >> (col as u8)) & 1 != 0 {
                            let mut sx: usize = 0;
                            while sx < scale
                                invariant
                                    self.wf(),
                                    self.width == old(self).width,
                                    self.height == old(self).height,
                                    self.background_color == old(self).background_color,
                                    self.current_color == old(self).current_color,
                                    self.buffer@.len() == old(self).buffer@.len(),
                                    1 <= scale <= 1024,
                                    y <= 32768,
                                    cursor_x <= 32768 + 32768,
                                    row < 8,
                                    col < 8,
                                    sx <= scale,
                                    forall|i: int|
                                        0 <= i < old(self).buffer@.len() && self.buffer@[i]
                                            != old(self).buffer@[i] ==> self.buffer@[i] == old(
                                            self,
                                        ).current_color,
                                    cursor_x >= x,
                                    forall|i: int|
                                        0 <= i < old(self).buffer@.len() && self.buffer@[i]
                                            != old(self).buffer@[i] ==> y <= i / (old(
                                            self,
                                        ).width as int) < y + 8 * scale && i % (old(
                                            self,
                                        ).width as int) >= x,
                                decreases scale - sx,
                            {
                                let mut sy: usize = 0;
                                while sy < scale
                                    invariant
                                        self.wf(),
                                        self.width == old(self).width,
                                        self.height == old(self).height,
                                        self.background_color == old(self).background_color,
                                        self.current_color == old(self).current_color,
                                        self.buffer@.len() == old(self).buffer@.len(),
                                        1 <= scale <= 1024,
                                        y <= 32768,
                                        cursor_x <= 32768 + 32768,
                                        row < 8,
                                        col < 8,
                                        sx < scale,
                                        sy <= scale,
                                        forall|i: int|
                                            0 <= i < old(self).buffer@.len() && self.buffer@[i]
                                                != old(self).buffer@[i] ==> self.buffer@[i]
                                                == old(self).current_color,
                                        cursor_x >= x,
                                        forall|i: int|
                                            0 <= i < old(self).buffer@.len() && self.buffer@[i]
                                                != old(self).buffer@[i] ==> y <= i / (old(
                                                self,
                                            ).width as int) < y + 8 * scale && i % (old(
                                                self,
                                            ).width as int) >= x,
                                    decreases scale - sy,
                                {
                                    proof {
                                        assert((col as int) * (scale as int) <= 8192 && (row
                                            as int) * (scale as int) <= 8192)
                                            by (nonlinear_arith)
                                            requires
                                                0 <= (col as int) < 8,
                                                0 <= (row as int) < 8,
                                                0 <= (scale as int) <= 1024,
                                        ;
                                    }
                                    let px = cursor_x + col * scale + sx;
                                    let py = y + row * scale + sy;
                                    proof {
                                        assert((row as int) * (scale as int) + (sy as int) < 8
                                            * (scale as int)) by (nonlinear_arith)
                                            requires
                                                0 <= (row as int) < 8,
                                                0 <= (sy as int) < (scale as int),
                                        ;
                                    }
                                    self.point(px, py);
                                    proof {
                                        if px < self.width && py < self.height {
                                            lemma_pixel_index_in_range(
                                                self.width as int,
                                                self.height as int,
                                                px as int,
                                                py as int,
                                            );
                                            lemma_pixel_index_decompose(
                                                self.width as int,
                                                px as int,
                                                py as int,
                                            );
                                        }
                                    }
                                    sy = sy + 1;
                                }
                                sx = sx + 1;
                            }
                        }
                        col = col + 1;
                    }
                    row = row + 1;
                }
                cursor_x = cursor_x + 8 * scale + 1;
            }
            ci = ci + 1;
        }
    }

    /// Sets the color `point` will write.
    pub fn set_current_color(&mut self, color: u32)
        ensures
            final(self).width == old(self).width,
            final(self).height == old(self).height,
            final(self).buffer@ == old(self).buffer@,
            final(self).background_color == old(self).background_color,
            final(self).current_color == color,
    {
        self.current_color = color;
    }
}

/// An in-bounds pixel coordinate maps to an in-bounds buffer index.
pub proof fn lemma_pixel_index_in_range(width: int, height: int, x: int, y: int)
    requires
        0 <= x < width,
        0 <= y < height,
        width <= 32768,
        height <= 32768,
    ensures
        0 <= y * width + x < width * height,
        y * width + x < 0x4000_0000,
{
    assert(y * width + x < width * height && width * height <= 0x4000_0000) by (nonlinear_arith)
        requires 0 <= x < width && 0 <= y < height && width <= 32768 && height <= 32768;
}

/// A buffer index splits back into its pixel coordinate: row by division,
/// column by remainder.
pub proof fn lemma_pixel_index_decompose(width: int, x: int, y: int)
    requires
        0 <= x < width,
        0 <= y,
    ensures
        (y * width + x) / width == y,
        (y * width + x) % width == x,
{
    vstd::arithmetic::div_mod::lemma_fundamental_div_mod_converse_div(
        y * width + x,
        width,
        y,
        x,
    );
    vstd::arithmetic::div_mod::lemma_fundamental_div_mod_converse_mod(
        y * width + x,
        width,
        y,
        x,
    );
}

} // verus!

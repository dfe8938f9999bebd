//! The texture registry: a data-driven mapping from cell code to texture,
//! built once at level-load time and passed into the renderer.

use vstd::prelude::*;
use crate::texture::Texture;

verus! {

/// Maps wall-kind cell codes to their textures; cell codes without an
/// entry fall back to the default texture.
pub struct TextureAtlas {
    pub entries: Vec<(char, Texture)>,
    pub default_texture: Texture,
}

/// The texture of the first entry from position `i` on whose code is
/// `cell`, or the default.
pub open spec fn lookup_from(
    entries: Seq<(char, Texture)>,
    i: int,
    cell: char,
    default_texture: Texture,
) -> Texture
    decreases entries.len() - i,
{
    if i < 0 || i >= entries.len() {
        default_texture
    } else if entries[i].0 == cell {
        entries[i].1
    } else {
        lookup_from(entries, i + 1, cell, default_texture)
    }
}

impl TextureAtlas {
    /// Every registered texture and the fallback are well-formed.
    pub open spec fn wf(&self) -> bool {
        &&& self.default_texture.wf()
        &&& forall|i: int| 0 <= i < self.entries@.len() ==> (#[trigger] self.entries@[i]).1.wf()
    }

    /// The texture that `cell` maps to.
    pub open spec fn spec_texture(&self, cell: char) -> Texture {
        lookup_from(self.entries@, 0, cell, self.default_texture)
    }

    /// An atlas with no entries: every cell code maps to the default.
    pub fn new(default_texture: Texture) -> (a: TextureAtlas)
        requires
            default_texture.wf(),
        ensures
            a.wf(),
            a.entries@.len() == 0,
            a.default_texture == default_texture,
    {
        TextureAtlas { entries: Vec::new(), default_texture }
    }

    /// Registers a texture for a cell code; an earlier entry for the same
    /// code keeps priority.
    pub fn register(&mut self, cell: char, texture: Texture)
        requires
            old(self).wf(),
            texture.wf(),
        ensures
            final(self).wf(),
            final(self).entries@ == old(self).entries@.push((cell, texture)),
            final(self).default_texture == old(self).default_texture,
    {
        self.entries.push((cell, texture));
    }

    /// Looks the cell code up.
    pub fn texture_for(&self, cell: char) -> (t: &Texture)
        requires
            self.wf(),
        ensures
            *t == self.spec_texture(cell),
            t.wf(),
    {
        let n = self.entries.len();
        let mut i: usize = 0;
        while i < n
            invariant
                i <= n,
                n == self.entries@.len(),
                self.wf(),
                lookup_from(self.entries@, 0, cell, self.default_texture) == lookup_from(
                    self.entries@,
                    i as int,
                    cell,
                    self.default_texture,
                ),
            decreases n - i,
        {
            if self.entries[i].0 == cell {
                return &self.entries[i].1;
            }
            i = i + 1;
        }
        &self.default_texture
    }
}

/// The color at `(tx, ty)` of the texture the atlas gives to `cell`.
pub fn cell_to_texture_color(atlas: &TextureAtlas, cell: char, tx: u32, ty: u32) -> (c: u32)
    requires
        atlas.wf(),
    ensures
        c == atlas.spec_texture(cell).pixel_spec(tx as int, ty as int),
{
    let t = atlas.texture_for(cell);
    t.get_pixel_color(tx, ty)
}

} // verus!

//! What the renderer is handed: batches of vertices with their index lists,
//! and the layout of sprite sheets packed side by side into one texture.
use vstd::prelude::*;

verus! {

/// A batch of vertices and the indices of the triangles drawn from them.
#[derive(Debug, Clone)]
pub struct RenderData<V> {
    pub vertex: Vec<V>,
    pub index: Vec<u32>,
}

/// `s` with `off` added to every index.
pub open spec fn shifted(s: Seq<u32>, off: u32) -> Seq<u32> {
    s.map_values(|i: u32| (i + off) as u32)
}

impl<V> RenderData<V> {
    /// An empty batch.
    pub fn new() -> (r: Self)
        ensures
            r.vertex@.len() == 0,
            r.index@.len() == 0,
    {
        RenderData { vertex: Vec::new(), index: Vec::new() }
    }

    /// Adds `index_offset` to every index, so that the batch can follow
    /// `index_offset` vertices of another one. No index may pass `u32::MAX`.
    pub fn offset(&mut self, index_offset: u32)
        requires
            forall|i: int| 0 <= i < old(self).index@.len() ==> old(self).index@[i] + index_offset <= u32::MAX,
        ensures
            final(self).index@ == shifted(old(self).index@, index_offset),
            final(self).vertex@ == old(self).vertex@,
    {
        let n = self.index.len();
        for i in 0..n
            invariant
                n == self.index@.len(),
                self.vertex@ == old(self).vertex@,
                forall|j: int| 0 <= j < n ==> old(self).index@[j] + index_offset <= u32::MAX,
                forall|j: int| 0 <= j < i ==> #[trigger] self.index@[j] == (old(self).index@[j] + index_offset) as u32,
                forall|j: int| i <= j < n ==> #[trigger] self.index@[j] == old(self).index@[j],
        {
            let v = self.index[i] + index_offset;
            self.index.set(i, v);
        }
        assert(self.index@ =~= shifted(old(self).index@, index_offset));
    }
}

/// The indices of the two triangles of a quad whose four corners are the
/// vertices `index_offset` to `index_offset + 3`, in drawing order.
pub fn quad_indices(index_offset: u32) -> (r: Vec<u32>)
    requires
        index_offset + 3 <= u32::MAX,
    ensures
        r@ == seq![index_offset, (index_offset + 1) as u32, (index_offset + 2) as u32, index_offset,
            (index_offset + 2) as u32, (index_offset + 3) as u32],
{
    let r = vec![index_offset, 1 + index_offset, 2 + index_offset, index_offset, 2 + index_offset, 3 + index_offset];
    assert(r@ =~= seq![index_offset, (index_offset + 1) as u32, (index_offset + 2) as u32, index_offset,
        (index_offset + 2) as u32, (index_offset + 3) as u32]);
    r
}

/// The sizes of a sprite sheet: its width and height, the size of each
/// sprite on it, and the padding between sprites, in pixels.
#[derive(Debug, Clone, Copy)]
pub struct SpriteSheetSize {
    pub width: usize,
    pub height: usize,
    pub sprite_width: usize,
    pub sprite_height: usize,
    pub sprite_padding: usize,
}

/// A sprite sheet placed in a combined texture: it starts `x_offset` pixels
/// from the left of a texture `total_width` wide and `height` high.
#[derive(Debug, Clone, Copy)]
pub struct SpriteSheet {
    pub texture_id: i32,
    pub x_offset: usize,
    pub total_width: usize,
    pub width: usize,
    pub height: usize,
    pub sprite_width: usize,
    pub sprite_height: usize,
    pub sprite_padding: usize,
}

/// The pixel of the combined texture where the sprite at grid position `p` of the sheet `s` starts.
pub open spec fn sprite_origin(s: SpriteSheet, p: (usize, usize)) -> (int, int) {
    (p.0 * (s.sprite_width + s.sprite_padding) + s.x_offset, p.1 * (s.sprite_height + s.sprite_padding))
}

impl SpriteSheet {
    /// The pixels of the combined texture where the sprites at the grid
    /// positions `sprite_positions` start (column, row, counted in sprites).
    pub fn sprite_origins(&self, sprite_positions: &Vec<(usize, usize)>) -> (r: Vec<(usize, usize)>)
        requires
            forall|i: int| 0 <= i < sprite_positions@.len() ==> {
                let o = #[trigger] sprite_origin(*self, sprite_positions@[i]);
                o.0 <= usize::MAX && o.1 <= usize::MAX && self.sprite_width + self.sprite_padding <= usize::MAX
                    && self.sprite_height + self.sprite_padding <= usize::MAX
            },
        ensures
            r@.len() == sprite_positions@.len(),
            forall|i: int| 0 <= i < r@.len() ==> #[trigger] r@[i] == ({
                let o = sprite_origin(*self, sprite_positions@[i]);
                (o.0 as usize, o.1 as usize)
            }),
    {
        let mut out: Vec<(usize, usize)> = Vec::new();
        let n = sprite_positions.len();
        for i in 0..n
            invariant
                n == sprite_positions@.len(),
                out@.len() == i,
                forall|k: int| 0 <= k < n ==> {
                    let o = #[trigger] sprite_origin(*self, sprite_positions@[k]);
                    o.0 <= usize::MAX && o.1 <= usize::MAX && self.sprite_width + self.sprite_padding <= usize::MAX
                        && self.sprite_height + self.sprite_padding <= usize::MAX
                },
                forall|k: int| 0 <= k < i ==> #[trigger] out@[k] == ({
                    let o = sprite_origin(*self, sprite_positions@[k]);
                    (o.0 as usize, o.1 as usize)
                }),
        {
            let p = sprite_positions[i];
            let ghost o = sprite_origin(*self, p);
            assert(o.0 <= usize::MAX && o.1 <= usize::MAX);
            let step_x = self.sprite_width + self.sprite_padding;
            let step_y = self.sprite_height + self.sprite_padding;
            assert(p.0 * step_x <= usize::MAX) by (nonlinear_arith)
                requires p.0 * step_x + self.x_offset <= usize::MAX, self.x_offset >= 0;
            let x = p.0 * step_x + self.x_offset;
            let y = p.1 * step_y;
            out.push((x, y));
        }
        out
    }
}

/// The sprite sheets of a game, placed side by side, in order, into one
/// texture stored at `path`.
#[derive(Debug, Clone)]
pub struct SpriteSheetSheet {
    pub sheets: Vec<SpriteSheet>,
    pub path: String,
}

/// Where the combined texture is written.
pub open spec fn combine_path() -> Seq<char> {
    "src/rendering_engine/img/COMBINED_AUTO_GENERATED.png"@
}

/// The sum of the widths of `sizes`.
pub open spec fn widths_sum(sizes: Seq<SpriteSheetSize>) -> int
    decreases sizes.len(),
{
    if sizes.len() == 0 {
        0
    } else {
        widths_sum(sizes.drop_last()) + sizes.last().width
    }
}

/// The greatest height among `sizes` (0 when there are none).
pub open spec fn max_height(sizes: Seq<SpriteSheetSize>) -> int
    decreases sizes.len(),
{
    if sizes.len() == 0 {
        0
    } else {
        let m = max_height(sizes.drop_last());
        if sizes.last().height > m { sizes.last().height as int } else { m }
    }
}

proof fn lemma_widths_sum_prefix(sizes: Seq<SpriteSheetSize>, i: int)
    requires
        0 <= i <= sizes.len(),
    ensures
        widths_sum(sizes.take(i)) <= widths_sum(sizes),
        widths_sum(sizes.take(i)) >= 0,
    decreases sizes.len() - i,
{
    if i == sizes.len() {
        assert(sizes.take(i) =~= sizes);
    } else {
        assert(sizes.take(i + 1).drop_last() =~= sizes.take(i));
        lemma_widths_sum_prefix(sizes, i + 1);
    }
    lemma_widths_sum_nonneg(sizes.take(i));
}

proof fn lemma_widths_sum_nonneg(sizes: Seq<SpriteSheetSize>)
    ensures
        widths_sum(sizes) >= 0,
    decreases sizes.len(),
{
    if sizes.len() > 0 {
        lemma_widths_sum_nonneg(sizes.drop_last());
    }
}

impl SpriteSheetSheet {
    /// Places the sheets of sizes `sheets` side by side, in order, into one
    /// texture with id `texture_id`: each sheet starts where the ones before
    /// it end, and the texture is as wide as all of them together and as high
    /// as the highest.
    pub fn create_from_json(sheets: &Vec<SpriteSheetSize>, texture_id: i32) -> (r: Self)
        requires
            widths_sum(sheets@) <= usize::MAX,
        ensures
            r.path@ == combine_path(),
            r.sheets@.len() == sheets@.len(),
            forall|i: int| 0 <= i < sheets@.len() ==> {
                let s = #[trigger] r.sheets@[i];
                &&& s.texture_id == texture_id
                &&& s.x_offset == widths_sum(sheets@.take(i))
                &&& s.total_width == widths_sum(sheets@)
                &&& s.width == sheets@[i].width
                &&& s.height == max_height(sheets@)
                &&& s.sprite_width == sheets@[i].sprite_width
                &&& s.sprite_height == sheets@[i].sprite_height
                &&& s.sprite_padding == sheets@[i].sprite_padding
            },
    {
        let n = sheets.len();
        let mut real_height: usize = 0;
        for i in 0..n
            invariant
                n == sheets@.len(),
                real_height == max_height(sheets@.take(i as int)),
        {
            proof { assert(sheets@.take(i + 1).drop_last() =~= sheets@.take(i as int)); }
            if sheets[i].height > real_height {
                real_height = sheets[i].height;
            }
        }
        proof { assert(sheets@.take(n as int) =~= sheets@); }
        let mut total_width: usize = 0;
        for i in 0..n
            invariant
                n == sheets@.len(),
                widths_sum(sheets@) <= usize::MAX,
                total_width == widths_sum(sheets@.take(i as int)),
        {
            proof {
                assert(sheets@.take(i + 1).drop_last() =~= sheets@.take(i as int));
                lemma_widths_sum_prefix(sheets@, i + 1);
            }
            total_width = total_width + sheets[i].width;
        }
        proof { assert(sheets@.take(n as int) =~= sheets@); }
        let mut sprite_sheets: Vec<SpriteSheet> = Vec::new();
        let mut x_offset: usize = 0;
        for i in 0..n
            invariant
                n == sheets@.len(),
                widths_sum(sheets@) <= usize::MAX,
                total_width == widths_sum(sheets@),
                real_height == max_height(sheets@),
                x_offset == widths_sum(sheets@.take(i as int)),
                sprite_sheets@.len() == i,
                forall|k: int| 0 <= k < i ==> {
                    let s = #[trigger] sprite_sheets@[k];
                    &&& s.texture_id == texture_id
                    &&& s.x_offset == widths_sum(sheets@.take(k))
                    &&& s.total_width == widths_sum(sheets@)
                    &&& s.width == sheets@[k].width
                    &&& s.height == max_height(sheets@)
                    &&& s.sprite_width == sheets@[k].sprite_width
                    &&& s.sprite_height == sheets@[k].sprite_height
                    &&& s.sprite_padding == sheets@[k].sprite_padding
                },
        {
            let sheet = sheets[i];
            sprite_sheets.push(SpriteSheet {
                texture_id,
                total_width,
                width: sheet.width,
                x_offset,
                height: real_height,
                sprite_width: sheet.sprite_width,
                sprite_height: sheet.sprite_height,
                sprite_padding: sheet.sprite_padding,
            });
            proof {
                assert(sheets@.take(i + 1).drop_last() =~= sheets@.take(i as int));
                lemma_widths_sum_prefix(sheets@, i + 1);
            }
            x_offset = x_offset + sheet.width;
        }
        SpriteSheetSheet { sheets: sprite_sheets, path: "src/rendering_engine/img/COMBINED_AUTO_GENERATED.png".to_owned() }
    }
}

} // verus!

verus! {

/// Offsetting a batch by `a` and then by `b` is offsetting it by `a + b`.
pub proof fn lemma_offset_composes(s: Seq<u32>, a: u32, b: u32)
    requires
        a + b <= u32::MAX,
        forall|i: int| 0 <= i < s.len() ==> s[i] + a + b <= u32::MAX,
    ensures
        shifted(shifted(s, a), b) == shifted(s, (a + b) as u32),
{
    assert(shifted(shifted(s, a), b) =~= shifted(s, (a + b) as u32));
}

} // verus!

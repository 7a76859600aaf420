//! Drawing: placing a shaped glyph block on the canvas and rasterizing it.

use vstd::prelude::*;
use crate::canvas::Canvas;
use crate::canvas::Rgba;
use crate::canvas::cell_index;
use crate::search::chosen_blank;
use crate::search::lemma_first_candidates_elems;
use crate::search::rect_blank;
use crate::search::spec_first_candidates;

verus! {

/// The sampling stride the draw path hands to the blank-region search.
pub const DRAW_QUALITY: u32 = 10;

/// One cell of a shaped glyph block: an offset from the block's top-left
/// corner, and the alpha derived from the rasterizer's coverage there.
#[derive(Clone, Copy, PartialEq, Eq, Structural, Debug)]
pub struct GlyphPixel {
    pub dx: u32,
    pub dy: u32,
    pub alpha: u8,
}

/// A shaped text block: the block's bounding size and the glyph cells to
/// write, in drawing order. Shaping text into such a block is the font
/// collaborator's business; the engine only places and writes it.
pub struct GlyphBlock {
    pub width: u32,
    pub height: u32,
    pub pixels: Vec<GlyphPixel>,
}

impl GlyphBlock {
    /// Well-formed: every glyph cell lies inside the block's bounds.
    pub open spec fn wf(self) -> bool {
        forall|k: int|
            0 <= k < self.pixels@.len() ==> (#[trigger] self.pixels@[k]).dx < self.width
                && self.pixels@[k].dy < self.height
    }

    /// Check a would-be block: `Some` exactly when every glyph cell lies
    /// inside the bounds.
    pub fn new(width: u32, height: u32, pixels: Vec<GlyphPixel>) -> (r: Option<GlyphBlock>)
        ensures
            match r {
                Some(b) => {
                    &&& b.width == width
                    &&& b.height == height
                    &&& b.pixels@ == pixels@
                    &&& b.wf()
                },
                None => !(GlyphBlock { width, height, pixels }.wf()),
            },
    {
        let n: usize = pixels.len();
        let mut k: usize = 0;
        while k < n
            invariant
                n == pixels@.len(),
                k <= n,
                forall|t: int|
                    0 <= t < k ==> (#[trigger] pixels@[t]).dx < width && pixels@[t].dy < height,
            decreases n - k,
        {
            let gp = pixels[k];
            if gp.dx >= width || gp.dy >= height {
                proof {
                    let ghost b = GlyphBlock { width, height, pixels };
                    assert(b.pixels@[k as int].dx >= width || b.pixels@[k as int].dy >= height);
                    assert(!b.wf());
                }
                return None;
            }
            k = k + 1;
        }
        Some(GlyphBlock { width, height, pixels })
    }
}

/// Where one glyph cell of a block anchored at (px, py) lands in the grid.
pub open spec fn glyph_target(width: int, px: int, py: int, gp: GlyphPixel) -> int {
    cell_index(width, px + gp.dx, py + gp.dy)
}

/// The cell value one glyph cell writes: the draw color under the glyph
/// cell's alpha.
pub open spec fn glyph_value(color: (u8, u8, u8), gp: GlyphPixel) -> Rgba {
    Rgba { r: color.0, g: color.1, b: color.2, a: gp.alpha }
}

/// The grid after writing the block's glyph cells in order at anchor
/// (px, py). Each write overwrites: of two glyph cells landing on one grid
/// cell, the later one wins.
pub open spec fn spec_rasterize(
    grid: Seq<Rgba>,
    width: int,
    ps: Seq<GlyphPixel>,
    px: int,
    py: int,
    color: (u8, u8, u8),
) -> Seq<Rgba>
    decreases ps.len(),
{
    if ps.len() == 0 {
        grid
    } else {
        spec_rasterize(grid, width, ps.drop_last(), px, py, color).update(
            glyph_target(width, px, py, ps.last()),
            glyph_value(color, ps.last()),
        )
    }
}

/// The grid keeps its size under rasterization.
pub proof fn lemma_rasterize_len(
    grid: Seq<Rgba>,
    width: int,
    ps: Seq<GlyphPixel>,
    px: int,
    py: int,
    color: (u8, u8, u8),
)
    requires
        forall|k: int|
            0 <= k < ps.len() ==> 0 <= glyph_target(width, px, py, #[trigger] ps[k])
                < grid.len(),
    ensures
        spec_rasterize(grid, width, ps, px, py, color).len() == grid.len(),
    decreases ps.len(),
{
    if ps.len() > 0 {
        assert(forall|k: int| 0 <= k < ps.drop_last().len() ==> ps.drop_last()[k] == ps[k]);
        lemma_rasterize_len(grid, width, ps.drop_last(), px, py, color);
        assert(ps.last() == ps[ps.len() - 1]);
    }
}

/// A grid cell that no glyph cell of the block targets keeps its value.
pub proof fn lemma_rasterize_frame(
    grid: Seq<Rgba>,
    width: int,
    ps: Seq<GlyphPixel>,
    px: int,
    py: int,
    color: (u8, u8, u8),
    t: int,
)
    requires
        forall|k: int|
            0 <= k < ps.len() ==> 0 <= glyph_target(width, px, py, #[trigger] ps[k])
                < grid.len(),
        0 <= t < grid.len(),
        forall|k: int| 0 <= k < ps.len() ==> glyph_target(width, px, py, #[trigger] ps[k]) != t,
    ensures
        spec_rasterize(grid, width, ps, px, py, color)[t] == grid[t],
    decreases ps.len(),
{
    if ps.len() > 0 {
        assert(forall|k: int| 0 <= k < ps.drop_last().len() ==> ps.drop_last()[k] == ps[k]);
        lemma_rasterize_frame(grid, width, ps.drop_last(), px, py, color, t);
        lemma_rasterize_len(grid, width, ps.drop_last(), px, py, color);
        assert(ps.last() == ps[ps.len() - 1]);
    }
}

/// A grid cell that some glyph cell of the block targets holds, afterwards,
/// the draw color under the alpha of one glyph cell that targets it.
pub proof fn lemma_rasterize_written(
    grid: Seq<Rgba>,
    width: int,
    ps: Seq<GlyphPixel>,
    px: int,
    py: int,
    color: (u8, u8, u8),
    t: int,
)
    requires
        forall|k: int|
            0 <= k < ps.len() ==> 0 <= glyph_target(width, px, py, #[trigger] ps[k])
                < grid.len(),
        0 <= t < grid.len(),
        exists|k: int| 0 <= k < ps.len() && glyph_target(width, px, py, #[trigger] ps[k]) == t,
    ensures
        exists|k: int|
            0 <= k < ps.len() && glyph_target(width, px, py, #[trigger] ps[k]) == t
                && spec_rasterize(grid, width, ps, px, py, color)[t] == glyph_value(
                color,
                ps[k],
            ),
    decreases ps.len(),
{
    assert(ps.len() > 0);
    assert(forall|k: int| 0 <= k < ps.drop_last().len() ==> ps.drop_last()[k] == ps[k]);
    assert(ps.last() == ps[ps.len() - 1]);
    lemma_rasterize_len(grid, width, ps.drop_last(), px, py, color);
    if glyph_target(width, px, py, ps.last()) == t {
        let k = ps.len() - 1;
        assert(glyph_target(width, px, py, ps[k]) == t && spec_rasterize(
            grid,
            width,
            ps,
            px,
            py,
            color,
        )[t] == glyph_value(color, ps[k]));
    } else {
        let k0 = choose|k: int|
            0 <= k < ps.len() && glyph_target(width, px, py, #[trigger] ps[k]) == t;
        assert(k0 < ps.len() - 1);
        assert(ps.drop_last()[k0] == ps[k0]);
        lemma_rasterize_written(grid, width, ps.drop_last(), px, py, color, t);
        let k1 = choose|k: int|
            0 <= k < ps.drop_last().len() && glyph_target(width, px, py, #[trigger] ps.drop_last()[k])
                == t && spec_rasterize(grid, width, ps.drop_last(), px, py, color)[t]
                == glyph_value(color, ps.drop_last()[k]);
        assert(glyph_target(width, px, py, ps[k1]) == t && spec_rasterize(
            grid,
            width,
            ps,
            px,
            py,
            color,
        )[t] == glyph_value(color, ps[k1]));
    }
}

/// The grid a draw leaves behind once the anchor pick is fixed: unchanged
/// when the search finds nothing, else the block rasterized at the chosen
/// anchor.
pub open spec fn spec_draw_choice(
    c: Canvas,
    block: GlyphBlock,
    color: (u8, u8, u8),
    q: int,
    choice: int,
) -> Seq<Rgba> {
    let cs = spec_first_candidates(c, block.width as int, block.height as int, q);
    if cs.len() == 0 {
        c.pixels@
    } else {
        let p = cs[choice % cs.len() as int];
        spec_rasterize(c.pixels@, c.width as int, block.pixels@, p.0 as int, p.1 as int, color)
    }
}

impl Canvas {
    /// Write every glyph cell of the block at anchor (px, py), in order,
    /// overwriting whatever was under each cell.
    pub fn draw_block_at(&mut self, block: &GlyphBlock, color: (u8, u8, u8), px: u32, py: u32)
        requires
            old(self).wf(),
            block.wf(),
            px + block.width <= old(self).width,
            py + block.height <= old(self).height,
        ensures
            final(self).wf(),
            final(self).width == old(self).width,
            final(self).height == old(self).height,
            final(self).default_color == old(self).default_color,
            final(self).pixels@ == spec_rasterize(
                old(self).pixels@,
                old(self).width as int,
                block.pixels@,
                px as int,
                py as int,
                color,
            ),
    {
        let n: usize = block.pixels.len();
        let mut k: usize = 0;
        while k < n
            invariant
                self.wf(),
                block.wf(),
                self.width == old(self).width,
                self.height == old(self).height,
                self.default_color == old(self).default_color,
                px + block.width <= self.width,
                py + block.height <= self.height,
                n == block.pixels@.len(),
                k <= n,
                self.pixels@ == spec_rasterize(
                    old(self).pixels@,
                    old(self).width as int,
                    block.pixels@.take(k as int),
                    px as int,
                    py as int,
                    color,
                ),
            decreases n - k,
        {
            let gp = block.pixels[k];
            proof {
                assert(block.pixels@.take(k as int + 1).drop_last() =~= block.pixels@.take(
                    k as int,
                ));
                assert(block.pixels@.take(k as int + 1).last() == block.pixels@[k as int]);
            }
            self.put_pixel(
                px + gp.dx,
                py + gp.dy,
                Rgba { r: color.0, g: color.1, b: color.2, a: gp.alpha },
            );
            k = k + 1;
        }
        proof {
            assert(block.pixels@.take(n as int) =~= block.pixels@);
        }
    }

    /// One draw call: search for a blank rectangle of the block's size under
    /// the given stride; when one is found, write the block there and return
    /// the anchor, else leave the canvas untouched and return None.
    pub fn draw_text_with_quality(
        &mut self,
        block: &GlyphBlock,
        color: (u8, u8, u8),
        quality: u32,
    ) -> (placed: Option<(u32, u32)>)
        requires
            old(self).wf(),
            block.wf(),
            1 <= quality <= 0x7fff_ffff,
        ensures
            final(self).wf(),
            final(self).width == old(self).width,
            final(self).height == old(self).height,
            final(self).default_color == old(self).default_color,
            placed.is_none() <==> spec_first_candidates(
                *old(self),
                block.width as int,
                block.height as int,
                quality as int,
            ).len() == 0,
            placed.is_none() ==> *final(self) == *old(self),
            placed.is_some() ==> {
                let p = placed.unwrap();
                &&& (p.0 as int) + (block.width as int) < old(self).width as int
                &&& (p.1 as int) + (block.height as int) < old(self).height as int
                &&& spec_first_candidates(
                    *old(self),
                    block.width as int,
                    block.height as int,
                    quality as int,
                ).contains(p)
                &&& rect_blank(
                    *old(self),
                    p.0 as int,
                    p.1 as int,
                    block.width as int,
                    block.height as int,
                    quality as int,
                )
                &&& final(self).pixels@ == spec_rasterize(
                    old(self).pixels@,
                    old(self).width as int,
                    block.pixels@,
                    p.0 as int,
                    p.1 as int,
                    color,
                )
            },
    {
        let p = self.find_blank(block.width, block.height, quality);
        if p.0 < 0 || p.1 < 0 {
            return None;
        }
        let px = p.0 as u32;
        let py = p.1 as u32;
        self.draw_block_at(block, color, px, py);
        Some((px, py))
    }

    /// Draw one text block with an explicit color, at the engine's default
    /// sampling stride.
    pub fn draw_text_with_color(&mut self, block: &GlyphBlock, color: (u8, u8, u8)) -> (placed:
        Option<(u32, u32)>)
        requires
            old(self).wf(),
            block.wf(),
        ensures
            final(self).wf(),
            final(self).width == old(self).width,
            final(self).height == old(self).height,
            final(self).default_color == old(self).default_color,
            placed.is_none() <==> spec_first_candidates(
                *old(self),
                block.width as int,
                block.height as int,
                DRAW_QUALITY as int,
            ).len() == 0,
            placed.is_none() ==> *final(self) == *old(self),
            placed.is_some() ==> {
                let p = placed.unwrap();
                &&& (p.0 as int) + (block.width as int) < old(self).width as int
                &&& (p.1 as int) + (block.height as int) < old(self).height as int
                &&& spec_first_candidates(
                    *old(self),
                    block.width as int,
                    block.height as int,
                    DRAW_QUALITY as int,
                ).contains(p)
                &&& rect_blank(
                    *old(self),
                    p.0 as int,
                    p.1 as int,
                    block.width as int,
                    block.height as int,
                    DRAW_QUALITY as int,
                )
                &&& final(self).pixels@ == spec_rasterize(
                    old(self).pixels@,
                    old(self).width as int,
                    block.pixels@,
                    p.0 as int,
                    p.1 as int,
                    color,
                )
            },
    {
        self.draw_text_with_quality(block, color, DRAW_QUALITY)
    }

    /// Draw one text block in the canvas's current default color.
    pub fn draw_text(&mut self, block: &GlyphBlock) -> (placed: Option<(u32, u32)>)
        requires
            old(self).wf(),
            block.wf(),
        ensures
            final(self).wf(),
            final(self).width == old(self).width,
            final(self).height == old(self).height,
            final(self).default_color == old(self).default_color,
            placed.is_none() <==> spec_first_candidates(
                *old(self),
                block.width as int,
                block.height as int,
                DRAW_QUALITY as int,
            ).len() == 0,
            placed.is_none() ==> *final(self) == *old(self),
            placed.is_some() ==> final(self).pixels@ == spec_rasterize(
                old(self).pixels@,
                old(self).width as int,
                block.pixels@,
                placed.unwrap().0 as int,
                placed.unwrap().1 as int,
                old(self).default_color,
            ),
    {
        let c = self.default_color;
        self.draw_text_with_color(block, c)
    }

    /// One draw call with an injected choice in place of the random draw:
    /// the final grid is a function of the old grid, the block, the color,
    /// the stride and the choice, and nothing else.
    pub fn draw_text_with_choice(
        &mut self,
        block: &GlyphBlock,
        color: (u8, u8, u8),
        quality: u32,
        choice: usize,
    ) -> (placed: Option<(u32, u32)>)
        requires
            old(self).wf(),
            block.wf(),
            1 <= quality <= 0x7fff_ffff,
        ensures
            final(self).wf(),
            final(self).width == old(self).width,
            final(self).height == old(self).height,
            final(self).default_color == old(self).default_color,
            final(self).pixels@ == spec_draw_choice(
                *old(self),
                *block,
                color,
                quality as int,
                choice as int,
            ),
            placed.is_none() <==> spec_first_candidates(
                *old(self),
                block.width as int,
                block.height as int,
                quality as int,
            ).len() == 0,
    {
        let ghost cs = spec_first_candidates(
            *self,
            block.width as int,
            block.height as int,
            quality as int,
        );
        let p = self.find_blank_with_choice(block.width, block.height, quality, choice);
        proof {
            lemma_first_candidates_elems(
                *self,
                block.width as int,
                block.height as int,
                quality as int,
                0,
            );
        }
        if p.0 < 0 || p.1 < 0 {
            proof {
                assert(cs.len() == 0);
            }
            return None;
        }
        let px = p.0 as u32;
        let py = p.1 as u32;
        proof {
            assert(cs.len() > 0);
            assert((px, py) == cs[choice as int % cs.len() as int]);
        }
        self.draw_block_at(block, color, px, py);
        Some((px, py))
    }
}

} // verus!

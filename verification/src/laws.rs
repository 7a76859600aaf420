//! The engine's laws: bounds, determinism, dense-sampling soundness,
//! occupancy monotonicity and exhaustion, stated over the same spec functions
//! the drawing and searching contracts use.

use vstd::prelude::*;
use vstd::math::clip;
use crate::canvas::Canvas;
use crate::canvas::Rgba;
use crate::canvas::cell_index;
use crate::canvas::lemma_cell_index_bounds;
use crate::canvas::lemma_cell_index_injective;
use crate::canvas::occupied;
use crate::draw::GlyphBlock;
use crate::draw::glyph_target;
use crate::draw::glyph_value;
use crate::draw::lemma_rasterize_frame;
use crate::draw::lemma_rasterize_len;
use crate::draw::spec_draw_choice;
use crate::draw::spec_rasterize;
use crate::search::SCAN_OFFSETS;
use crate::search::SCAN_STEP;
use crate::search::candidates;
use crate::search::chosen_blank;
use crate::search::column_candidates;
use crate::search::candidates_from;
use crate::search::first_candidates_from;
use crate::search::is_candidate;
use crate::search::lemma_candidates_from_elems;
use crate::search::lemma_first_candidates_empty;
use crate::search::rect_blank;
use crate::search::spec_first_candidates;

verus! {

/// The number of painted cells in a grid.
pub open spec fn occupied_count(grid: Seq<Rgba>) -> nat
    decreases grid.len(),
{
    if grid.len() == 0 {
        0
    } else {
        occupied_count(grid.drop_last()) + (if occupied(grid.last()) {
            1nat
        } else {
            0nat
        })
    }
}

pub proof fn lemma_occupied_count_le_len(grid: Seq<Rgba>)
    ensures
        occupied_count(grid) <= grid.len(),
    decreases grid.len(),
{
    if grid.len() > 0 {
        lemma_occupied_count_le_len(grid.drop_last());
    }
}

/// A grid whose painted cells are painted in another grid of the same size
/// has at most the other's count.
pub proof fn lemma_occupied_count_pointwise(g1: Seq<Rgba>, g2: Seq<Rgba>)
    requires
        g1.len() == g2.len(),
        forall|k: int| 0 <= k < g1.len() && occupied(#[trigger] g1[k]) ==> occupied(g2[k]),
    ensures
        occupied_count(g1) <= occupied_count(g2),
    decreases g1.len(),
{
    if g1.len() > 0 {
        assert(forall|k: int| 0 <= k < g1.drop_last().len() ==> g1.drop_last()[k] == g1[k]);
        assert(forall|k: int| 0 <= k < g2.drop_last().len() ==> g2.drop_last()[k] == g2[k]);
        lemma_occupied_count_pointwise(g1.drop_last(), g2.drop_last());
        assert(g1.last() == g1[g1.len() - 1]);
        assert(g2.last() == g2[g2.len() - 1]);
    }
}

/// Every glyph cell of a block anchored inside the canvas lands inside the
/// grid.
proof fn lemma_block_targets_in_range(c: Canvas, block: GlyphBlock, px: int, py: int)
    requires
        c.wf(),
        block.wf(),
        0 <= px,
        0 <= py,
        px + block.width <= c.width,
        py + block.height <= c.height,
    ensures
        forall|k: int|
            0 <= k < block.pixels@.len() ==> 0 <= glyph_target(
                c.width as int,
                px,
                py,
                #[trigger] block.pixels@[k],
            ) < c.pixels@.len(),
{
    assert forall|k: int| 0 <= k < block.pixels@.len() implies 0 <= glyph_target(
        c.width as int,
        px,
        py,
        #[trigger] block.pixels@[k],
    ) < c.pixels@.len() by {
        let gp = block.pixels@[k];
        lemma_cell_index_bounds(c.width as int, c.height as int, px + gp.dx, py + gp.dy);
    }
}

/// Law: a draw writes only inside the placed rectangle. The grid keeps its
/// size, and every cell outside the block's rectangle — in particular every
/// cell near the canvas edge that the rectangle does not reach — keeps its
/// value. Nothing is ever written outside the canvas bounds.
pub proof fn lemma_draw_stays_in_bounds(
    c: Canvas,
    block: GlyphBlock,
    color: (u8, u8, u8),
    px: int,
    py: int,
    x: int,
    y: int,
)
    requires
        c.wf(),
        block.wf(),
        0 <= px,
        0 <= py,
        px + block.width <= c.width,
        py + block.height <= c.height,
        0 <= x < c.width,
        0 <= y < c.height,
        !(px <= x < px + block.width && py <= y < py + block.height),
    ensures
        spec_rasterize(c.pixels@, c.width as int, block.pixels@, px, py, color).len()
            == c.pixels@.len(),
        spec_rasterize(c.pixels@, c.width as int, block.pixels@, px, py, color)[cell_index(
            c.width as int,
            x,
            y,
        )] == c.pixels@[cell_index(c.width as int, x, y)],
{
    lemma_block_targets_in_range(c, block, px, py);
    lemma_rasterize_len(c.pixels@, c.width as int, block.pixels@, px, py, color);
    lemma_cell_index_bounds(c.width as int, c.height as int, x, y);
    let t = cell_index(c.width as int, x, y);
    assert forall|k: int| 0 <= k < block.pixels@.len() implies glyph_target(
        c.width as int,
        px,
        py,
        #[trigger] block.pixels@[k],
    ) != t by {
        let gp = block.pixels@[k];
        if glyph_target(c.width as int, px, py, gp) == t {
            lemma_cell_index_injective(c.width as int, px + gp.dx, py + gp.dy, x, y);
        }
    }
    lemma_rasterize_frame(c.pixels@, c.width as int, block.pixels@, px, py, color, t);
}

/// Law: monotonic occupancy. When the rectangle a block is placed in holds
/// no painted cell — which a stride-one search guarantees — the draw never
/// lowers the number of painted cells: outside the rectangle nothing
/// changes, and inside it only cells that were blank are written.
pub proof fn lemma_draw_occupancy_monotone(
    c: Canvas,
    block: GlyphBlock,
    color: (u8, u8, u8),
    px: int,
    py: int,
)
    requires
        c.wf(),
        block.wf(),
        0 <= px,
        0 <= py,
        px + block.width <= c.width,
        py + block.height <= c.height,
        forall|x: int, y: int|
            px <= x < px + block.width && py <= y < py + block.height ==> !c.occupied_at(x, y),
    ensures
        occupied_count(c.pixels@) <= occupied_count(
            spec_rasterize(c.pixels@, c.width as int, block.pixels@, px, py, color),
        ),
{
    let g2 = spec_rasterize(c.pixels@, c.width as int, block.pixels@, px, py, color);
    lemma_block_targets_in_range(c, block, px, py);
    lemma_rasterize_len(c.pixels@, c.width as int, block.pixels@, px, py, color);
    assert forall|t: int|
        0 <= t < c.pixels@.len() && occupied(#[trigger] c.pixels@[t]) implies occupied(
        g2[t],
    ) by {
        if exists|k: int|
            0 <= k < block.pixels@.len() && glyph_target(
                c.width as int,
                px,
                py,
                #[trigger] block.pixels@[k],
            ) == t {
            let k = choose|k: int|
                0 <= k < block.pixels@.len() && glyph_target(
                    c.width as int,
                    px,
                    py,
                    #[trigger] block.pixels@[k],
                ) == t;
            let gp = block.pixels@[k];
            assert(!c.occupied_at(px + gp.dx, py + gp.dy));
            assert(c.pixel(px + gp.dx, py + gp.dy) == c.pixels@[t]);
            assert(false);
        } else {
            lemma_rasterize_frame(c.pixels@, c.width as int, block.pixels@, px, py, color, t);
        }
    }
    lemma_occupied_count_pointwise(c.pixels@, g2);
}

/// Law: a draw whose rectangle the stride-one search called blank never
/// lowers the number of painted cells. This is the two previous laws joined:
/// dense sampling rules out a missed painted cell, and a draw into a wholly
/// blank rectangle only adds.
pub proof fn lemma_dense_draw_occupancy_monotone(
    c: Canvas,
    block: GlyphBlock,
    color: (u8, u8, u8),
    px: int,
    py: int,
)
    requires
        c.wf(),
        block.wf(),
        0 <= px,
        0 <= py,
        px + block.width <= c.width,
        py + block.height <= c.height,
        rect_blank(c, px, py, block.width as int, block.height as int, 1),
    ensures
        occupied_count(c.pixels@) <= occupied_count(
            spec_rasterize(c.pixels@, c.width as int, block.pixels@, px, py, color),
        ),
{
    lemma_dense_rect_blank(c, px, py, block.width as int, block.height as int);
    lemma_draw_occupancy_monotone(c, block, color, px, py);
}

/// Law: under stride one the search samples every cell, so a rectangle it
/// calls blank holds no painted cell at all — a placement returned by a
/// dense search cannot rest on a sampling miss.
pub proof fn lemma_dense_rect_blank(c: Canvas, i: int, j: int, w: int, h: int)
    requires
        rect_blank(c, i, j, w, h, 1),
    ensures
        forall|x: int, y: int| i <= x < i + w && j <= y < j + h ==> !c.occupied_at(x, y),
{
    assert forall|x: int, y: int|
        i <= x < i + w && j <= y < j + h implies !c.occupied_at(x, y) by {
        vstd::arithmetic::div_mod::lemma_fundamental_div_mod(x - i, 1);
        vstd::arithmetic::div_mod::lemma_fundamental_div_mod(y - j, 1);
        assert((x - i) % 1 == 0);
        assert((y - j) % 1 == 0);
    }
}

/// Law: exhaustion. On a grid whose every cell is painted, the scan accepts
/// no anchor at any offset, so the search returns its sentinel and a draw
/// leaves the grid unchanged, for every positive rectangle and stride.
pub proof fn lemma_exhaustion(c: Canvas, w: int, h: int, q: int)
    requires
        c.wf(),
        w >= 1,
        h >= 1,
        q >= 1,
        forall|x: int, y: int| 0 <= x < c.width && 0 <= y < c.height ==> c.occupied_at(x, y),
    ensures
        spec_first_candidates(c, w, h, q).len() == 0,
{
    assert forall|s: int|
        0 <= s < SCAN_OFFSETS as int implies #[trigger] candidates(
        c,
        w,
        h,
        q,
        s,
        SCAN_STEP as int,
    ).len() == 0 by {
        if candidates(c, w, h, q, s, SCAN_STEP as int).len() > 0 {
            lemma_candidates_from_elems(c, w, h, q, s, SCAN_STEP as int, s);
            let e = candidates(c, w, h, q, s, SCAN_STEP as int)[0];
            assert(is_candidate(c, w, h, q, s, SCAN_STEP as int, e.0 as int, e.1 as int));
            vstd::arithmetic::div_mod::lemma_mod_multiples_basic(0, q);
            assert(!c.occupied_at(e.0 as int, e.1 as int));
            assert(c.occupied_at(e.0 as int, e.1 as int));
            assert(false);
        }
    }
    lemma_first_candidates_empty(c, w, h, q, 0);
}

proof fn lemma_rect_blank_same_grid(
    c1: Canvas,
    c2: Canvas,
    i: int,
    j: int,
    w: int,
    h: int,
    q: int,
)
    requires
        c1.width == c2.width,
        c1.height == c2.height,
        c1.pixels@ == c2.pixels@,
    ensures
        rect_blank(c1, i, j, w, h, q) == rect_blank(c2, i, j, w, h, q),
{
    if rect_blank(c1, i, j, w, h, q) {
        assert forall|x: int, y: int|
            i <= x < i + w && j <= y < j + h && (x - i) % q == 0 && (y - j) % q
                == 0 implies !c2.occupied_at(x, y) by {
            assert(!c1.occupied_at(x, y));
            assert(c2.pixel(x, y) == c1.pixel(x, y));
        }
    }
    if rect_blank(c2, i, j, w, h, q) {
        assert forall|x: int, y: int|
            i <= x < i + w && j <= y < j + h && (x - i) % q == 0 && (y - j) % q
                == 0 implies !c1.occupied_at(x, y) by {
            assert(!c2.occupied_at(x, y));
            assert(c1.pixel(x, y) == c2.pixel(x, y));
        }
    }
}

proof fn lemma_column_candidates_same_grid(
    c1: Canvas,
    c2: Canvas,
    w: int,
    h: int,
    q: int,
    step: int,
    i: int,
    j: int,
)
    requires
        step >= 1,
        c1.width == c2.width,
        c1.height == c2.height,
        c1.pixels@ == c2.pixels@,
    ensures
        column_candidates(c1, w, h, q, step, i, j) == column_candidates(c2, w, h, q, step, i, j),
    decreases clip(c1.height - h - j),
{
    lemma_rect_blank_same_grid(c1, c2, i, j, w, h, q);
    if j >= c1.height - h {
    } else {
        lemma_column_candidates_same_grid(c1, c2, w, h, q, step, i, j + step);
    }
}

proof fn lemma_candidates_from_same_grid(
    c1: Canvas,
    c2: Canvas,
    w: int,
    h: int,
    q: int,
    start: int,
    step: int,
    i: int,
)
    requires
        step >= 1,
        c1.width == c2.width,
        c1.height == c2.height,
        c1.pixels@ == c2.pixels@,
    ensures
        candidates_from(c1, w, h, q, start, step, i) == candidates_from(
            c2,
            w,
            h,
            q,
            start,
            step,
            i,
        ),
    decreases clip(c1.width - w - i),
{
    if i >= c1.width - w {
    } else {
        lemma_column_candidates_same_grid(c1, c2, w, h, q, step, i, start);
        lemma_candidates_from_same_grid(c1, c2, w, h, q, start, step, i + step);
    }
}

proof fn lemma_first_candidates_same_grid(
    c1: Canvas,
    c2: Canvas,
    w: int,
    h: int,
    q: int,
    start: int,
)
    requires
        c1.width == c2.width,
        c1.height == c2.height,
        c1.pixels@ == c2.pixels@,
    ensures
        first_candidates_from(c1, w, h, q, start) == first_candidates_from(c2, w, h, q, start),
    decreases clip(SCAN_OFFSETS as int - start),
{
    if start >= SCAN_OFFSETS as int {
    } else {
        lemma_candidates_from_same_grid(c1, c2, w, h, q, start, SCAN_STEP as int, start);
        lemma_first_candidates_same_grid(c1, c2, w, h, q, start + 1);
    }
}

/// Law: determinism under an injected choice. The search and the draw depend
/// only on the grid, its dimensions and the call's arguments: two canvases
/// that agree on those — whatever their default colors — get the same
/// candidate list, the same chosen anchor, and the same final grid.
pub proof fn lemma_draw_deterministic(
    c1: Canvas,
    c2: Canvas,
    block: GlyphBlock,
    color: (u8, u8, u8),
    q: int,
    choice: int,
)
    requires
        c1.width == c2.width,
        c1.height == c2.height,
        c1.pixels@ == c2.pixels@,
    ensures
        spec_first_candidates(c1, block.width as int, block.height as int, q)
            == spec_first_candidates(c2, block.width as int, block.height as int, q),
        chosen_blank(c1, block.width as int, block.height as int, q, choice) == chosen_blank(
            c2,
            block.width as int,
            block.height as int,
            q,
            choice,
        ),
        spec_draw_choice(c1, block, color, q, choice) == spec_draw_choice(
            c2,
            block,
            color,
            q,
            choice,
        ),
{
    lemma_first_candidates_same_grid(c1, c2, block.width as int, block.height as int, q, 0);
}

impl Canvas {
    /// Count the painted cells of the grid.
    pub fn count_occupied(&self) -> (n: usize)
        requires
            self.wf(),
        ensures
            n == occupied_count(self.pixels@),
    {
        let total: usize = self.pixels.len();
        let mut n: usize = 0;
        let mut k: usize = 0;
        while k < total
            invariant
                self.wf(),
                total == self.pixels@.len(),
                k <= total,
                n == occupied_count(self.pixels@.take(k as int)),
                n <= k,
            decreases total - k,
        {
            proof {
                assert(self.pixels@.take(k as int + 1).drop_last() =~= self.pixels@.take(
                    k as int,
                ));
                assert(self.pixels@.take(k as int + 1).last() == self.pixels@[k as int]);
            }
            let p = self.pixels[k];
            if p.a != 0 || (p.r != 0 && p.g != 0 && p.b != 0) {
                n = n + 1;
            }
            k = k + 1;
        }
        proof {
            assert(self.pixels@.take(total as int) =~= self.pixels@);
        }
        n
    }
}

} // verus!

//! The pixel grid: cells, the occupancy test, and bounded cell access.

use vstd::prelude::*;

verus! {

/// One cell of the raster: red, green, blue and alpha, eight bits each.
#[derive(Clone, Copy, PartialEq, Eq, Structural, Debug)]
pub struct Rgba {
    pub r: u8,
    pub g: u8,
    pub b: u8,
    pub a: u8,
}

/// The fully transparent cell that a fresh canvas is filled with.
pub open spec fn transparent() -> Rgba {
    Rgba { r: 0, g: 0, b: 0, a: 0 }
}

/// The occupancy test: a cell counts as painted when its alpha is non-zero,
/// or when all three color channels are non-zero at once. The test is
/// deliberately approximate (an opaque pure-red cell with alpha zero is not
/// counted); it is the engine's notion of "looks painted" and every search
/// contract is stated over it.
pub open spec fn occupied(p: Rgba) -> bool {
    p.a != 0 || (p.r != 0 && p.g != 0 && p.b != 0)
}

/// Row-major position of cell (x, y) in a grid `width` cells wide.
pub open spec fn cell_index(width: int, x: int, y: int) -> int {
    y * width + x
}

pub proof fn lemma_cell_index_bounds(width: int, height: int, x: int, y: int)
    requires
        0 <= x < width,
        0 <= y < height,
    ensures
        0 <= cell_index(width, x, y) < width * height,
{
    assert(0 <= y * width + x < width * height) by (nonlinear_arith)
        requires
            0 <= x < width,
            0 <= y < height,
    ;
}

pub proof fn lemma_cell_index_injective(width: int, x1: int, y1: int, x2: int, y2: int)
    requires
        0 <= x1 < width,
        0 <= x2 < width,
        0 <= y1,
        0 <= y2,
        cell_index(width, x1, y1) == cell_index(width, x2, y2),
    ensures
        x1 == x2,
        y1 == y2,
{
    assert(y1 * width + x1 == y2 * width + x2 && 0 <= x1 < width && 0 <= x2 < width && 0 <= y1
        && 0 <= y2 ==> x1 == x2 && y1 == y2) by (nonlinear_arith);
}

/// The canvas: a width × height grid of RGBA cells, plus the color used when
/// a draw call does not name one. The grid is allocated once and never
/// resized.
pub struct Canvas {
    pub width: u32,
    pub height: u32,
    pub pixels: Vec<Rgba>,
    pub default_color: (u8, u8, u8),
}

impl Canvas {
    /// Well-formed: the grid holds exactly width × height cells, and each
    /// dimension fits a non-negative `i32`, so that found coordinates can be
    /// told apart from the signed "not found" sentinel.
    pub open spec fn wf(self) -> bool {
        &&& self.pixels@.len() == (self.width as int) * (self.height as int)
        &&& self.width <= 0x7fff_ffff
        &&& self.height <= 0x7fff_ffff
    }

    /// The cell at (x, y).
    pub open spec fn pixel(self, x: int, y: int) -> Rgba {
        self.pixels@[cell_index(self.width as int, x, y)]
    }

    /// Whether the cell at (x, y) counts as painted.
    pub open spec fn occupied_at(self, x: int, y: int) -> bool {
        occupied(self.pixel(x, y))
    }

    /// A fresh, fully transparent canvas with the engine's default color.
    pub fn new(width: u32, height: u32) -> (c: Canvas)
        requires
            width <= 0x7fff_ffff,
            height <= 0x7fff_ffff,
            width * height <= usize::MAX,
        ensures
            c.wf(),
            c.width == width,
            c.height == height,
            c.default_color == (160u8, 0u8, 0u8),
            forall|x: int, y: int|
                0 <= x < width && 0 <= y < height ==> c.pixel(x, y) == transparent(),
    {
        let total: usize = (width as usize) * (height as usize);
        let mut pixels: Vec<Rgba> = Vec::new();
        let mut n: usize = 0;
        while n < total
            invariant
                n <= total,
                pixels@.len() == n,
                forall|k: int| 0 <= k < n ==> pixels@[k] == transparent(),
            decreases total - n,
        {
            pixels.push(Rgba { r: 0, g: 0, b: 0, a: 0 });
            n = n + 1;
        }
        let c = Canvas { width, height, pixels, default_color: (160, 0, 0) };
        proof {
            assert forall|x: int, y: int|
                0 <= x < width && 0 <= y < height implies c.pixel(x, y) == transparent() by {
                lemma_cell_index_bounds(width as int, height as int, x, y);
            }
        }
        c
    }

    /// Read the cell at (x, y).
    pub fn get_pixel(&self, x: u32, y: u32) -> (p: Rgba)
        requires
            self.wf(),
            x < self.width,
            y < self.height,
        ensures
            p == self.pixel(x as int, y as int),
    {
        let total: usize = self.pixels.len();
        proof {
            lemma_cell_index_bounds(
                self.width as int,
                self.height as int,
                x as int,
                y as int,
            );
            assert(y * self.width + x < total);
        }
        let idx: usize = (y as usize) * (self.width as usize) + (x as usize);
        self.pixels[idx]
    }

    /// Overwrite the cell at (x, y). The previous value is discarded, never
    /// blended with.
    pub fn put_pixel(&mut self, x: u32, y: u32, p: Rgba)
        requires
            old(self).wf(),
            x < old(self).width,
            y < old(self).height,
        ensures
            final(self).wf(),
            final(self).width == old(self).width,
            final(self).height == old(self).height,
            final(self).default_color == old(self).default_color,
            final(self).pixels@ == old(self).pixels@.update(
                cell_index(old(self).width as int, x as int, y as int),
                p,
            ),
    {
        let total: usize = self.pixels.len();
        proof {
            lemma_cell_index_bounds(
                self.width as int,
                self.height as int,
                x as int,
                y as int,
            );
            assert(y * self.width + x < total);
        }
        let idx: usize = (y as usize) * (self.width as usize) + (x as usize);
        self.pixels.set(idx, p);
    }

    /// Whether the cell at (x, y) counts as painted.
    pub fn is_occupied(&self, x: u32, y: u32) -> (r: bool)
        requires
            self.wf(),
            x < self.width,
            y < self.height,
        ensures
            r == self.occupied_at(x as int, y as int),
    {
        let p = self.get_pixel(x, y);
        p.a != 0 || (p.r != 0 && p.g != 0 && p.b != 0)
    }
}

} // verus!

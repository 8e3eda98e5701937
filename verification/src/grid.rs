//! Mathematical models of images: grids of colours and of luma values.

use vstd::prelude::*;
use vstd::arithmetic::div_mod::{
    lemma_div_pos_is_pos, lemma_fundamental_div_mod, lemma_mod_bound, lemma_multiply_divide_lt,
};
use crate::color::Color;

verus! {

/// A rectangular grid of colours, stored row by row.
pub struct PixelGrid {
    pub width: nat,
    pub height: nat,
    pub pixels: Seq<Color>,
}

/// A rectangular grid of luma values, stored row by row.
pub struct LumaGrid {
    pub width: nat,
    pub height: nat,
    pub luma: Seq<u8>,
}

/// The direction of the lines that a scan looks at: the columns of an image,
/// numbered by `x`, or its rows, numbered by `y`.
#[derive(Clone, Copy, Debug, PartialEq, Eq, Structural)]
pub enum Axis {
    Columns,
    Rows,
}

/// The smaller of two integers.
pub open spec fn min_int(a: int, b: int) -> int {
    if a <= b {
        a
    } else {
        b
    }
}

/// What is left of a span of `size` positions from `offset` on when it is
/// clipped to an axis of `extent` positions.
pub open spec fn clipped(size: int, offset: int, extent: int) -> int {
    min_int(size, extent - min_int(offset, extent))
}

/// The place of position `(x, y)` in a grid of the given width that is stored
/// row by row.
pub open spec fn pixel_index(width: int, x: int, y: int) -> int {
    y * width + x
}

impl PixelGrid {
    /// The grid holds one colour for each of its positions, and its width
    /// and height are 32-bit sizes.
    pub open spec fn wf(self) -> bool {
        &&& self.pixels.len() == self.width * self.height
        &&& self.width <= u32::MAX
        &&& self.height <= u32::MAX
    }

    /// Whether `(x, y)` is a position of the grid.
    pub open spec fn contains(self, x: int, y: int) -> bool {
        0 <= x < self.width && 0 <= y < self.height
    }

    /// The colour at column `x` of row `y`.
    pub open spec fn at(self, x: int, y: int) -> Color {
        self.pixels[pixel_index(self.width as int, x, y)]
    }

    /// The luma of every pixel, position by position.
    pub open spec fn to_luma(self) -> LumaGrid {
        LumaGrid {
            width: self.width,
            height: self.height,
            luma: Seq::new(self.pixels.len(), |k: int| self.pixels[k].luma()),
        }
    }

    /// Every pixel of the grid has the colour `c`.
    pub open spec fn is_uniform(self, c: Color) -> bool {
        forall|x: int, y: int| self.contains(x, y) ==> #[trigger] self.at(x, y) == c
    }

    /// Width of the part of the grid that a rectangle at column `x`, `w`
    /// wide, covers.
    pub open spec fn clipped_width(self, x: int, w: int) -> int {
        clipped(w, x, self.width as int)
    }

    /// Height of the part of the grid that a rectangle at row `y`, `h` high,
    /// covers.
    pub open spec fn clipped_height(self, y: int, h: int) -> int {
        clipped(h, y, self.height as int)
    }

    /// The cut-out of this grid under the rectangle at `(x, y)` of size `w`
    /// by `h`, clipped to the grid.
    pub open spec fn crop(self, x: nat, y: nat, w: nat, h: nat) -> PixelGrid {
        let width = self.clipped_width(x as int, w as int);
        let height = self.clipped_height(y as int, h as int);
        PixelGrid {
            width: width as nat,
            height: height as nat,
            pixels: Seq::new(
                (width * height) as nat,
                |k: int| self.at(x + k % width, y + k / width),
            ),
        }
    }

    /// Whether `other` is the cut-out of this grid under the rectangle at
    /// `(x, y)` of size `w` by `h`, clipped to the grid: it has the clipped
    /// size, and its pixel at `(i, j)` is the pixel of this grid at
    /// `(x + i, y + j)`.
    pub open spec fn cropped_to(self, other: PixelGrid, x: nat, y: nat, w: nat, h: nat) -> bool {
        &&& other.wf()
        &&& other.width == self.clipped_width(x as int, w as int)
        &&& other.height == self.clipped_height(y as int, h as int)
        &&& forall|i: int, j: int|
            other.contains(i, j) ==> #[trigger] other.at(i, j) == self.at(x + i, y + j)
    }
}

impl LumaGrid {
    /// The grid holds one value for each of its positions, and its width
    /// and height are 32-bit sizes.
    pub open spec fn wf(self) -> bool {
        &&& self.luma.len() == self.width * self.height
        &&& self.width <= u32::MAX
        &&& self.height <= u32::MAX
    }

    /// Whether `(x, y)` is a position of the grid.
    pub open spec fn contains(self, x: int, y: int) -> bool {
        0 <= x < self.width && 0 <= y < self.height
    }

    /// The luma at column `x` of row `y`.
    pub open spec fn at(self, x: int, y: int) -> u8 {
        self.luma[pixel_index(self.width as int, x, y)]
    }

    /// Number of lines along `axis`: the width for columns, the height for
    /// rows.
    pub open spec fn extent(self, axis: Axis) -> nat {
        match axis {
            Axis::Columns => self.width,
            Axis::Rows => self.height,
        }
    }

    /// Number of samples in each line along `axis`.
    pub open spec fn line_len(self, axis: Axis) -> nat {
        match axis {
            Axis::Columns => self.height,
            Axis::Rows => self.width,
        }
    }

    /// Sample number `pos` of line number `line` along `axis`.
    pub open spec fn sample(self, axis: Axis, line: int, pos: int) -> u8 {
        match axis {
            Axis::Columns => self.at(line, pos),
            Axis::Rows => self.at(pos, line),
        }
    }

    /// Every value of the grid is `l`.
    pub open spec fn is_uniform(self, l: u8) -> bool {
        forall|x: int, y: int| self.contains(x, y) ==> #[trigger] self.at(x, y) == l
    }
}

/// A position inside a grid has its place inside the row-by-row sequence.
pub proof fn lemma_position_index(x: int, y: int, width: int, height: int)
    requires
        0 <= x < width,
        0 <= y < height,
    ensures
        0 <= y * width + x < width * height,
        0 <= y * width <= width * height,
        4 * width * height == 4 * (width * height),
{
    assert(0 <= y * width) by (nonlinear_arith)
        requires
            0 <= y,
            0 <= width,
    ;
    assert((y + 1) * width <= height * width) by (nonlinear_arith)
        requires
            y + 1 <= height,
            0 <= width,
    ;
    assert((y + 1) * width == y * width + width) by (nonlinear_arith);
    assert(height * width == width * height) by (nonlinear_arith);
    assert(4 * width * height == 4 * (width * height)) by (nonlinear_arith);
}

/// The product of two 32-bit sizes fits in 64 bits.
pub proof fn lemma_area_bound(width: u32, height: u32)
    ensures
        0 <= width * height <= 0xFFFF_FFFE_0000_0001,
        4 * width * height == 4 * (width * height),
{
    assert(0 <= width * height <= 0xFFFF_FFFE_0000_0001) by (nonlinear_arith)
        requires
            0 <= width <= 0xFFFF_FFFF,
            0 <= height <= 0xFFFF_FFFF,
    ;
    assert(4 * width * height == 4 * (width * height)) by (nonlinear_arith);
}

/// A grid that is the cut-out of another under a rectangle is the cut-out
/// that `crop` gives.
pub proof fn lemma_cropped_is_crop(
    grid: PixelGrid,
    other: PixelGrid,
    x: nat,
    y: nat,
    w: nat,
    h: nat,
)
    requires
        grid.cropped_to(other, x, y, w, h),
    ensures
        other == grid.crop(x, y, w, h),
{
    let cut = grid.crop(x, y, w, h);
    let width = cut.width as int;
    assert(other.pixels.len() == cut.pixels.len());
    assert forall|k: int| 0 <= k < other.pixels.len() implies other.pixels[k] == cut.pixels[k] by {
        assert(width > 0) by (nonlinear_arith)
            requires
                0 <= k < width * cut.height,
                0 <= width,
                0 <= cut.height,
        ;
        lemma_fundamental_div_mod(k, width);
        lemma_mod_bound(k, width);
        lemma_multiply_divide_lt(k, width, cut.height as int);
        lemma_div_pos_is_pos(k, width);
        let i = k % width;
        let j = k / width;
        assert(k == j * width + i) by (nonlinear_arith)
            requires
                k == width * j + i,
        ;
        assert(other.contains(i, j));
        assert(other.at(i, j) == grid.at(x + i, y + j));
    }
    assert(other.pixels =~= cut.pixels);
}

/// The luma grid of a colour grid has the luma of each pixel at its position.
pub proof fn lemma_to_luma_at(grid: PixelGrid, x: int, y: int)
    requires
        grid.wf(),
        grid.contains(x, y),
    ensures
        grid.to_luma().wf(),
        grid.to_luma().contains(x, y),
        grid.to_luma().at(x, y) == grid.at(x, y).luma(),
{
    lemma_position_index(x, y, grid.width as int, grid.height as int);
}

} // verus!

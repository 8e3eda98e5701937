//! Background stripping: the dominant colour of the top left corner of an
//! image is taken for its background, and the pixels close to it are made
//! transparent.

use vstd::prelude::*;
use crate::color::Color;
use crate::config::SpritesheetCutter;
use crate::count::count_upto;
use crate::grid::{lemma_position_index, min_int, PixelGrid};
use crate::raster::RasterImage;

verus! {

/// Side of the corner block from which the background is estimated.
pub const CORNER_SIZE: u32 = 10;

/// The colour taken for the background of an image without pixels.
pub open spec fn opaque_white() -> Color {
    Color { r: 255, g: 255, b: 255, a: 255 }
}

/// The colour of a stripped pixel.
pub open spec fn transparent() -> Color {
    Color { r: 0, g: 0, b: 0, a: 0 }
}

/// The first `n` colours of row `y` of a grid.
pub open spec fn row_prefix(grid: PixelGrid, y: int, n: int) -> Seq<Color> {
    Seq::new(n as nat, |x: int| grid.at(x, y))
}

/// The first `width` colours of each of the first `rows` rows of a grid, row
/// after row.
pub open spec fn block_rows(grid: PixelGrid, width: int, rows: int) -> Seq<Color>
    decreases rows,
{
    if rows <= 0 {
        Seq::empty()
    } else {
        block_rows(grid, width, rows - 1) + row_prefix(grid, rows - 1, width)
    }
}

/// The colours of the corner block of a grid: its top left square of side
/// `CORNER_SIZE`, clipped to the grid, row after row.
pub open spec fn corner_samples(grid: PixelGrid) -> Seq<Color> {
    block_rows(
        grid,
        min_int(CORNER_SIZE as int, grid.width as int),
        min_int(CORNER_SIZE as int, grid.height as int),
    )
}

/// Whether entry `k` of a sequence is the colour `c`.
pub open spec fn same_at(s: Seq<Color>, c: Color) -> spec_fn(int) -> bool {
    |k: int| s[k] == c
}

/// Number of entries of a sequence that are the colour `c`.
pub open spec fn occurrences(s: Seq<Color>, c: Color) -> nat {
    count_upto(s.len() as int, same_at(s, c))
}

/// Whether `p` is the place of the mode of a sequence: no colour occurs more
/// often than the one at `p`, and each colour before `p` occurs less often.
pub open spec fn is_first_mode(s: Seq<Color>, p: int) -> bool {
    &&& 0 <= p < s.len()
    &&& forall|q: int|
        0 <= q < s.len() ==> {
            &&& occurrences(s, #[trigger] s[q]) <= occurrences(s, s[p])
            &&& q < p ==> occurrences(s, s[q]) < occurrences(s, s[p])
        }
}

/// The mode of a sequence of colours: the colour that occurs most often, and
/// of several such colours the one that comes first. `otherwise` for the
/// empty sequence.
pub open spec fn mode_of(s: Seq<Color>, otherwise: Color) -> Color {
    if s.len() == 0 {
        otherwise
    } else {
        s[choose|p: int| is_first_mode(s, p)]
    }
}

/// The background estimate of a grid: the mode of its corner block, and
/// opaque white for a grid without pixels.
pub open spec fn background_estimate(grid: PixelGrid) -> Color {
    mode_of(corner_samples(grid), opaque_white())
}

/// What stripping makes of a colour: transparent if it matches the
/// background, itself otherwise.
pub open spec fn strip_color(c: Color, background: Color, tolerance: u8) -> Color {
    if c.matches(background, tolerance) {
        transparent()
    } else {
        c
    }
}

/// A grid with every pixel stripped that matches `background`.
pub open spec fn stripped(grid: PixelGrid, background: Color, tolerance: u8) -> PixelGrid {
    PixelGrid {
        width: grid.width,
        height: grid.height,
        pixels: Seq::new(
            grid.pixels.len(),
            |k: int| strip_color(grid.pixels[k], background, tolerance),
        ),
    }
}

/// A sequence has at most one place of its mode.
pub proof fn lemma_first_mode_unique(s: Seq<Color>, p: int, q: int)
    requires
        is_first_mode(s, p),
        is_first_mode(s, q),
    ensures
        p == q,
{
    assert(occurrences(s, s[q]) <= occurrences(s, s[p]));
    assert(occurrences(s, s[p]) <= occurrences(s, s[q]));
}

/// Collects the colours of the corner block of an image.
fn sample_corner(img: &RasterImage) -> (samples: Vec<Color>)
    requires
        img.wf(),
    ensures
        samples@ == corner_samples(img@),
        samples@.len() <= CORNER_SIZE * CORNER_SIZE,
{
    let width: u32 = if img.width < CORNER_SIZE {
        img.width
    } else {
        CORNER_SIZE
    };
    let height: u32 = if img.height < CORNER_SIZE {
        img.height
    } else {
        CORNER_SIZE
    };
    let mut samples: Vec<Color> = Vec::new();
    let mut y: u32 = 0;
    while y < height
        invariant
            img.wf(),
            width == min_int(CORNER_SIZE as int, img@.width as int),
            height == min_int(CORNER_SIZE as int, img@.height as int),
            y <= height,
            samples@ == block_rows(img@, width as int, y as int),
            samples@.len() == y * width,
        decreases height - y,
    {
        let ghost done = samples@;
        let mut x: u32 = 0;
        while x < width
            invariant
                img.wf(),
                width == min_int(CORNER_SIZE as int, img@.width as int),
                height == min_int(CORNER_SIZE as int, img@.height as int),
                y < height,
                x <= width,
                samples@ == done + row_prefix(img@, y as int, x as int),
            decreases width - x,
        {
            samples.push(img.pixel(x, y));
            assert(samples@ =~= done + row_prefix(img@, y as int, x + 1));
            x = x + 1;
        }
        assert((y + 1) * width == y * width + width) by (nonlinear_arith);
        y = y + 1;
    }
    assert(height * width <= CORNER_SIZE * CORNER_SIZE) by (nonlinear_arith)
        requires
            0 <= height <= CORNER_SIZE,
            0 <= width <= CORNER_SIZE,
    ;
    samples
}

/// Counts the entries of a list that are the colour `c`.
fn count_occurrences(samples: &Vec<Color>, c: Color) -> (n: usize)
    ensures
        n == occurrences(samples@, c),
{
    let ghost same = same_at(samples@, c);
    let mut n: usize = 0;
    let mut k: usize = 0;
    while k < samples.len()
        invariant
            same == same_at(samples@, c),
            k <= samples@.len(),
            n <= k,
            n == count_upto(k as int, same),
        decreases samples@.len() - k,
    {
        if samples[k] == c {
            n = n + 1;
        }
        k = k + 1;
    }
    n
}

/// Finds the mode of a list of colours.
fn find_mode(samples: &Vec<Color>, otherwise: Color) -> (mode: Color)
    ensures
        mode == mode_of(samples@, otherwise),
{
    if samples.len() == 0 {
        return otherwise;
    }
    let mut best: usize = 0;
    let mut best_count: usize = count_occurrences(samples, samples[0]);
    let mut q: usize = 1;
    while q < samples.len()
        invariant
            1 <= q <= samples@.len(),
            best < q,
            best_count == occurrences(samples@, samples@[best as int]),
            forall|r: int|
                0 <= r < q ==> {
                    &&& occurrences(samples@, #[trigger] samples@[r]) <= best_count
                    &&& r < best ==> occurrences(samples@, samples@[r]) < best_count
                },
        decreases samples@.len() - q,
    {
        let n = count_occurrences(samples, samples[q]);
        if n > best_count {
            best = q;
            best_count = n;
        }
        q = q + 1;
    }
    proof {
        assert(is_first_mode(samples@, best as int));
        lemma_first_mode_unique(
            samples@,
            best as int,
            choose|p: int| is_first_mode(samples@, p),
        );
    }
    samples[best]
}

impl SpritesheetCutter {
    /// Tests whether a pixel matches the background: whether its red, green
    /// and blue each lie within the configured tolerance of those of
    /// `background`. Alpha is ignored.
    pub fn is_background_pixel(&self, pixel: &Color, background: &Color) -> (matches: bool)
        ensures
            matches == pixel.matches(*background, self.config.background_tolerance),
    {
        pixel.within_tolerance(background, self.config.background_tolerance)
    }

    /// Estimates the background colour of an image: the colour that occurs
    /// most often in its corner block, of several such colours the one that
    /// comes first row by row, and opaque white for an image without pixels.
    pub fn detect_background_color(&self, img: &RasterImage) -> (background: Color)
        requires
            img.wf(),
        ensures
            background == background_estimate(img@),
    {
        let samples = sample_corner(img);
        find_mode(&samples, Color { r: 255, g: 255, b: 255, a: 255 })
    }

    /// Makes the background of an image transparent: every pixel that
    /// matches the background estimate becomes transparent black, and every
    /// other pixel stays as it is.
    pub fn remove_background(&self, img: &RasterImage) -> (out: RasterImage)
        requires
            img.wf(),
        ensures
            out.wf(),
            out@ == stripped(img@, background_estimate(img@), self.config.background_tolerance),
    {
        let background = self.detect_background_color(img);
        let mut out = img.duplicate();
        let tolerance = self.config.background_tolerance;
        let ghost width = img.width as int;
        let mut y: u32 = 0;
        proof {
            img.lemma_wf();
        }
        while y < img.height
            invariant
                img.wf(),
                out.wf(),
                out.width == img.width,
                out.height == img.height,
                width == img.width,
                tolerance == self.config.background_tolerance,
                img@.pixels.len() == img.height * width,
                y <= img.height,
                forall|k: int|
                    0 <= k < y * width ==> #[trigger] out@.pixels[k] == strip_color(
                        img@.pixels[k],
                        background,
                        tolerance,
                    ),
                forall|k: int|
                    y * width <= k < img@.pixels.len() ==> #[trigger] out@.pixels[k]
                        == img@.pixels[k],
            decreases img.height - y,
        {
            let mut x: u32 = 0;
            while x < img.width
                invariant
                    img.wf(),
                    out.wf(),
                    out.width == img.width,
                    out.height == img.height,
                    width == img.width,
                    tolerance == self.config.background_tolerance,
                    img@.pixels.len() == img.height * width,
                    y < img.height,
                    x <= img.width,
                    forall|k: int|
                        0 <= k < y * width + x ==> #[trigger] out@.pixels[k] == strip_color(
                            img@.pixels[k],
                            background,
                            tolerance,
                        ),
                    forall|k: int|
                        y * width + x <= k < img@.pixels.len() ==> #[trigger] out@.pixels[k]
                            == img@.pixels[k],
                decreases img.width - x,
            {
                proof {
                    lemma_position_index(x as int, y as int, width, img.height as int);
                    assert(img.height * width == width * img.height) by (nonlinear_arith);
                }
                let pixel = out.pixel(x, y);
                if self.is_background_pixel(&pixel, &background) {
                    out.put_pixel(x, y, Color { r: 0, g: 0, b: 0, a: 0 });
                }
                x = x + 1;
            }
            assert((y + 1) * width == y * width + width) by (nonlinear_arith);
            y = y + 1;
        }
        assert(out@.pixels =~= stripped(img@, background, tolerance).pixels);
        out
    }
}

} // verus!

//! Fallback segmentation: where boundary detection yields no frame, the
//! image is cut along one axis at its bands of empty space.

use vstd::prelude::*;
use crate::boundary::{
    find_boundaries, is_boundary_list, merge_close, merge_close_boundaries, tested_boundaries,
};
use crate::config::{CutterConfig, SpritesheetCutter};
use crate::count::{count_upto, lemma_count_bound};
use crate::frame::{all_accepted, assembled_frames, SpriteFrame};
use crate::grid::{Axis, LumaGrid, PixelGrid};
use crate::raster::{GrayscaleView, RasterImage};
use crate::scan::{LineTest, SampleTest};

verus! {

/// The dominant luma is taken over every fourth pixel of every fourth row.
pub const SAMPLE_STEP: u32 = 4;

/// Number of sampled positions along an axis of the given extent.
pub open spec fn sampled_positions(extent: nat) -> int {
    (extent + SAMPLE_STEP - 1) / (SAMPLE_STEP as int)
}

/// Whether the sampled pixel number `i` of row `y` has the luma `v`.
pub open spec fn sampled_as(grid: LumaGrid, y: int, v: u8) -> spec_fn(int) -> bool {
    |i: int| grid.at(SAMPLE_STEP * i, y) == v
}

/// Number of sampled pixels of row `y` that have the luma `v`.
pub open spec fn sampled_in_row(grid: LumaGrid, y: int, v: u8) -> nat {
    count_upto(sampled_positions(grid.width), sampled_as(grid, y, v))
}

/// Number of sampled pixels with the luma `v` in the first `rows` sampled
/// rows.
pub open spec fn sampled_in_rows(grid: LumaGrid, rows: int, v: u8) -> nat
    decreases rows,
{
    if rows <= 0 {
        0
    } else {
        sampled_in_rows(grid, rows - 1, v) + sampled_in_row(grid, SAMPLE_STEP * (rows - 1), v)
    }
}

/// Number of sampled pixels of the grid that have the luma `v`.
pub open spec fn sample_count(grid: LumaGrid, v: u8) -> nat {
    sampled_in_rows(grid, sampled_positions(grid.height), v)
}

/// Whether `m` is the dominant luma of the grid: no luma is sampled more
/// often, and every smaller luma is sampled less often.
pub open spec fn is_dominant(grid: LumaGrid, m: u8) -> bool {
    forall|v: u8|
        {
            &&& #[trigger] sample_count(grid, v) <= sample_count(grid, m)
            &&& v < m ==> sample_count(grid, v) < sample_count(grid, m)
        }
}

/// The dominant luma of the grid: the smallest of the values that are sampled
/// most often. It is 0 where nothing is sampled.
pub open spec fn dominant_luma(grid: LumaGrid) -> u8 {
    choose|m: u8| is_dominant(grid, m)
}

/// Luma distance from the dominant luma within which a sample counts as
/// background.
pub const BACKGROUND_DISTANCE: u8 = 15;

/// The test for empty space around a dominant luma: more than `percent`
/// hundredths of the line lie within `BACKGROUND_DISTANCE` of it.
pub open spec fn empty_space_test(dominant: u8, percent: u32) -> LineTest {
    LineTest::Mostly {
        test: SampleTest::Near { center: dominant, distance: BACKGROUND_DISTANCE },
        percent,
    }
}

/// The boundaries of the empty lines along `axis`, before merging.
pub open spec fn empty_space_candidates(grid: LumaGrid, axis: Axis, percent: u32) -> Seq<u32> {
    tested_boundaries(grid, axis, empty_space_test(dominant_luma(grid), percent))
}

/// The boundaries of the empty lines along `axis` under a configuration, with
/// those merged that lie closer together than the minimum sprite size.
pub open spec fn empty_space_boundaries(cfg: CutterConfig, grid: LumaGrid, axis: Axis) -> Seq<u32> {
    merge_close(
        empty_space_candidates(grid, axis, cfg.thresholds.empty_percent),
        cfg.min_sprite_size,
        grid.extent(axis) as u32,
    )
}

/// The two boundaries of an axis that is not cut at all.
pub open spec fn full_span(extent: nat) -> Seq<u32> {
    seq![0u32, extent as u32]
}

/// The vertical boundaries of the fallback: those of the empty columns.
pub open spec fn strip_columns(cfg: CutterConfig, grid: PixelGrid) -> Seq<u32> {
    empty_space_boundaries(cfg, grid.to_luma(), Axis::Columns)
}

/// The horizontal boundaries of the fallback: those of the empty rows.
pub open spec fn band_rows(cfg: CutterConfig, grid: PixelGrid) -> Seq<u32> {
    empty_space_boundaries(cfg, grid.to_luma(), Axis::Rows)
}

/// The accepted vertical strips between the empty columns, each as high as
/// the grid.
pub open spec fn strip_frames(cfg: CutterConfig, grid: PixelGrid) -> Seq<SpriteFrame> {
    assembled_frames(cfg, grid, strip_columns(cfg, grid), full_span(grid.height))
}

/// The accepted horizontal bands between the empty rows, each as wide as the
/// grid.
pub open spec fn band_frames(cfg: CutterConfig, grid: PixelGrid) -> Seq<SpriteFrame> {
    assembled_frames(cfg, grid, full_span(grid.width), band_rows(cfg, grid))
}

/// The frames of the fallback: the vertical strips, or, if none of them is
/// accepted, the horizontal bands.
pub open spec fn fallback_frames(cfg: CutterConfig, grid: PixelGrid) -> Seq<SpriteFrame> {
    if strip_frames(cfg, grid).len() > 0 {
        strip_frames(cfg, grid)
    } else {
        band_frames(cfg, grid)
    }
}

/// A grid has at most one dominant luma.
pub proof fn lemma_dominant_unique(grid: LumaGrid, m: u8, n: u8)
    requires
        is_dominant(grid, m),
        is_dominant(grid, n),
    ensures
        m == n,
{
    assert(sample_count(grid, n) <= sample_count(grid, m));
    assert(sample_count(grid, m) <= sample_count(grid, n));
}

/// The samples of the first `rows` sampled rows that have one luma number at
/// most `rows` times the samples of a row.
proof fn lemma_sampled_bound(grid: LumaGrid, rows: int, v: u8)
    requires
        0 <= rows,
    ensures
        sampled_in_rows(grid, rows, v) <= rows * sampled_positions(grid.width),
    decreases rows,
{
    let per_row = sampled_positions(grid.width);
    if rows > 0 {
        lemma_sampled_bound(grid, rows - 1, v);
        lemma_count_bound(per_row, sampled_as(grid, SAMPLE_STEP * (rows - 1), v));
        assert(rows * per_row == (rows - 1) * per_row + per_row) by (nonlinear_arith);
    } else {
        assert(rows * per_row == 0) by (nonlinear_arith)
            requires
                rows == 0,
        ;
    }
}

/// Counts, for each luma, the sampled pixels that have it.
fn sample_histogram(gray: &GrayscaleView) -> (counts: Vec<u64>)
    requires
        gray.wf(),
    ensures
        counts@.len() == 256,
        forall|v: u8| #[trigger] counts@[v as int] == sample_count(gray@, v),
{
    let mut counts: Vec<u64> = Vec::new();
    let mut filled: usize = 0;
    while filled < 256
        invariant
            filled <= 256,
            counts@.len() == filled,
            forall|k: int| 0 <= k < filled ==> counts@[k] == 0,
        decreases 256 - filled,
    {
        counts.push(0);
        filled = filled + 1;
    }
    let step = SAMPLE_STEP as u64;
    let columns: u32 = ((gray.width as u64 + step - 1) / step) as u32;
    let rows: u32 = ((gray.height as u64 + step - 1) / step) as u32;
    let mut j: u32 = 0;
    while j < rows
        invariant
            gray.wf(),
            columns == sampled_positions(gray@.width),
            rows == sampled_positions(gray@.height),
            j <= rows,
            counts@.len() == 256,
            forall|v: u8| #[trigger] counts@[v as int] == sampled_in_rows(gray@, j as int, v),
        decreases rows - j,
    {
        let y: u32 = SAMPLE_STEP * j;
        let mut i: u32 = 0;
        while i < columns
            invariant
                gray.wf(),
                columns == sampled_positions(gray@.width),
                rows == sampled_positions(gray@.height),
                j < rows,
                y == SAMPLE_STEP * j,
                i <= columns,
                counts@.len() == 256,
                forall|v: u8| #[trigger]
                    counts@[v as int] == sampled_in_rows(gray@, j as int, v) + count_upto(
                        i as int,
                        sampled_as(gray@, y as int, v),
                    ),
            decreases columns - i,
        {
            let l = gray.luma(SAMPLE_STEP * i, y);
            let seen = counts[l as usize];
            proof {
                lemma_sampled_bound(gray@, j as int, l);
                lemma_count_bound(i as int, sampled_as(gray@, y as int, l));
                assert(j * sampled_positions(gray@.width) <= 0x4000_0000 * 0x4000_0000)
                    by (nonlinear_arith)
                    requires
                        0 <= j <= 0x4000_0000,
                        0 <= sampled_positions(gray@.width) <= 0x4000_0000,
                ;
            }
            counts.set(l as usize, seen + 1);
            i = i + 1;
        }
        j = j + 1;
    }
    counts
}

impl SpritesheetCutter {
    /// Finds the dominant luma of an image: the value that most of the
    /// sampled pixels have, the smallest such value where several tie, and 0
    /// for an image without pixels.
    pub fn detect_most_common_color(&self, gray: &GrayscaleView) -> (dominant: u8)
        requires
            gray.wf(),
        ensures
            is_dominant(gray@, dominant),
            dominant == dominant_luma(gray@),
    {
        let counts = sample_histogram(gray);
        let mut best: u8 = 0;
        let mut v: u8 = 0;
        while v < 255
            invariant
                counts@.len() == 256,
                best <= v,
                forall|u: u8| u <= v ==> counts@[u as int] <= counts@[best as int],
                forall|u: u8| u < best ==> counts@[u as int] < counts@[best as int],
            decreases 255 - v,
        {
            v = v + 1;
            if counts[v as usize] > counts[best as usize] {
                best = v;
            }
        }
        proof {
            assert(is_dominant(gray@, best)) by {
                assert forall|u: u8|
                    {
                        &&& #[trigger] sample_count(gray@, u) <= sample_count(gray@, best)
                        &&& u < best ==> sample_count(gray@, u) < sample_count(gray@, best)
                    } by {
                    assert(counts@[u as int] == sample_count(gray@, u));
                    assert(counts@[best as int] == sample_count(gray@, best));
                }
            }
            lemma_dominant_unique(gray@, best, dominant_luma(gray@));
        }
        best
    }

    /// Finds the boundaries of the empty space along one axis of a luma view
    /// around its dominant luma.
    fn empty_space_along(&self, gray: &GrayscaleView, dominant: u8, axis: Axis) -> (bounds: Vec<
        u32,
    >)
        requires
            gray.wf(),
            dominant == dominant_luma(gray@),
        ensures
            bounds@ == empty_space_boundaries(self.config, gray@, axis),
            is_boundary_list(bounds@, gray@.extent(axis) as u32),
    {
        let test = LineTest::Mostly {
            test: SampleTest::Near { center: dominant, distance: BACKGROUND_DISTANCE },
            percent: self.config.thresholds.empty_percent,
        };
        let candidates = find_boundaries(gray, axis, &test);
        merge_close_boundaries(&candidates, self.config.min_sprite_size, gray.extent(axis))
    }

    /// Finds the vertical boundaries of the empty space of an image: the x
    /// coordinates 0 and `width`, and between them the columns that are
    /// mostly background, those left out that lie closer than the minimum
    /// sprite size behind the boundary before them.
    pub fn find_empty_space_boundaries_horizontal(&self, img: &RasterImage) -> (bounds: Vec<u32>)
        requires
            img.wf(),
        ensures
            bounds@ == strip_columns(self.config, img@),
            is_boundary_list(bounds@, img.width),
    {
        let gray = img.to_luma8();
        let dominant = self.detect_most_common_color(&gray);
        self.empty_space_along(&gray, dominant, Axis::Columns)
    }

    /// Finds the horizontal boundaries of the empty space of an image: the y
    /// coordinates 0 and `height`, and between them the rows that are mostly
    /// background, those left out that lie closer than the minimum sprite
    /// size behind the boundary before them.
    pub fn find_empty_space_boundaries_vertical(&self, img: &RasterImage) -> (bounds: Vec<u32>)
        requires
            img.wf(),
        ensures
            bounds@ == band_rows(self.config, img@),
            is_boundary_list(bounds@, img.height),
    {
        let gray = img.to_luma8();
        let dominant = self.detect_most_common_color(&gray);
        self.empty_space_along(&gray, dominant, Axis::Rows)
    }

    /// The fallback on an image and its luma view.
    pub(crate) fn fallback_on(&self, img: &RasterImage, gray: &GrayscaleView) -> (frames: Vec<
        SpriteFrame,
    >)
        requires
            img.wf(),
            gray.wf(),
            gray@ == img@.to_luma(),
        ensures
            frames@ == fallback_frames(self.config, img@),
            all_accepted(self.config, img@, frames@),
    {
        let dominant = self.detect_most_common_color(gray);
        let columns = self.empty_space_along(gray, dominant, Axis::Columns);
        let mut all_rows: Vec<u32> = Vec::new();
        all_rows.push(0);
        all_rows.push(img.height);
        assert(all_rows@ =~= full_span(img@.height));
        let strips = self.assemble_frames(img, &columns, &all_rows);
        if strips.len() > 0 {
            return strips;
        }
        let rows = self.empty_space_along(gray, dominant, Axis::Rows);
        let mut all_columns: Vec<u32> = Vec::new();
        all_columns.push(0);
        all_columns.push(img.width);
        assert(all_columns@ =~= full_span(img@.width));
        self.assemble_frames(img, &all_columns, &rows)
    }

    /// Cuts an image along one axis at its bands of empty space: into
    /// vertical strips first, and into horizontal bands if no vertical strip
    /// is accepted. Each strip spans the image along the other axis and
    /// passes the same filter as the frames of the boundary grid.
    pub fn fallback_detection(&self, img: &RasterImage) -> (frames: Vec<SpriteFrame>)
        requires
            img.wf(),
        ensures
            frames@ == fallback_frames(self.config, img@),
            all_accepted(self.config, img@, frames@),
    {
        let gray = img.to_luma8();
        self.fallback_on(img, &gray)
    }
}

} // verus!

//! Frame detection: the frames of the boundary grid, or those of the
//! fallback where the grid yields none.

use vstd::prelude::*;
use crate::boundary::{
    detected_boundaries, lemma_boundary_list, lemma_boundary_list_within, lemma_merge_close,
    within_extent,
};
use crate::config::{CutterConfig, SpritesheetCutter, OPAQUE_ALPHA};
use crate::count::{lemma_count_all, lemma_count_none};
use crate::fallback::{
    band_rows, dominant_luma, empty_space_candidates, empty_space_test, fallback_frames,
    full_span, strip_columns,
};
use crate::frame::{
    accepts, all_accepted, all_fit, assembled_frames, cell, is_accepted_cell, is_cell,
    lemma_assembled_frames, lemma_cell_fits, visible_at, visible_in_rows, SpriteFrame,
};
use crate::grid::{Axis, PixelGrid};
use crate::raster::RasterImage;
use crate::scan::{line_marks, LineTest};

verus! {

/// The detected vertical boundaries of a grid.
pub open spec fn primary_columns(cfg: CutterConfig, grid: PixelGrid) -> Seq<u32> {
    detected_boundaries(grid.to_luma(), Axis::Columns, cfg.thresholds)
}

/// The detected horizontal boundaries of a grid.
pub open spec fn primary_rows(cfg: CutterConfig, grid: PixelGrid) -> Seq<u32> {
    detected_boundaries(grid.to_luma(), Axis::Rows, cfg.thresholds)
}

/// The frames of the boundary grid: the accepted cells between the detected
/// vertical and horizontal boundaries.
pub open spec fn primary_frames(cfg: CutterConfig, grid: PixelGrid) -> Seq<SpriteFrame> {
    assembled_frames(cfg, grid, primary_columns(cfg, grid), primary_rows(cfg, grid))
}

/// The frames of an image: those of the boundary grid, or, where there are
/// none, those of the fallback.
pub open spec fn detected_frames(cfg: CutterConfig, grid: PixelGrid) -> Seq<SpriteFrame> {
    let primary = primary_frames(cfg, grid);
    if primary.len() > 0 {
        primary
    } else {
        fallback_frames(cfg, grid)
    }
}

/// Whether a frame has an admissible size: neither side is zero, and both lie
/// within the configured bounds.
pub open spec fn admissible(cfg: CutterConfig, f: SpriteFrame) -> bool {
    cfg.admits_size(f.width as int, f.height as int) && f.width > 0 && f.height > 0
}

/// Whether a cell of the grid of two boundary lists has an admissible size.
pub open spec fn has_admissible_cell(cfg: CutterConfig, xs: Seq<u32>, ys: Seq<u32>) -> bool {
    exists|i: int, j: int| is_cell(xs, ys, i, j) && admissible(cfg, #[trigger] cell(xs, ys, i, j))
}

/// Whether any cell that detection looks at has an admissible size: a cell of
/// the boundary grid, a vertical strip or a horizontal band of the fallback.
pub open spec fn has_admissible_candidate(cfg: CutterConfig, grid: PixelGrid) -> bool {
    ||| has_admissible_cell(cfg, primary_columns(cfg, grid), primary_rows(cfg, grid))
    ||| has_admissible_cell(cfg, strip_columns(cfg, grid), full_span(grid.height))
    ||| has_admissible_cell(cfg, full_span(grid.width), band_rows(cfg, grid))
}

/// No pixel of the grid is visible.
pub open spec fn nothing_visible(grid: PixelGrid) -> bool {
    forall|x: int, y: int| grid.contains(x, y) ==> (#[trigger] grid.at(x, y)).a <= OPAQUE_ALPHA
}

/// Every pixel of the grid is visible.
pub open spec fn everything_visible(grid: PixelGrid) -> bool {
    forall|x: int, y: int| grid.contains(x, y) ==> (#[trigger] grid.at(x, y)).a > OPAQUE_ALPHA
}

/// Every list of boundaries that detection crosses stays within the grid.
pub proof fn lemma_candidate_lists_within(cfg: CutterConfig, grid: PixelGrid)
    requires
        grid.wf(),
    ensures
        within_extent(primary_columns(cfg, grid), grid.width),
        within_extent(primary_rows(cfg, grid), grid.height),
        within_extent(strip_columns(cfg, grid), grid.width),
        within_extent(band_rows(cfg, grid), grid.height),
        within_extent(full_span(grid.width), grid.width),
        within_extent(full_span(grid.height), grid.height),
{
    let luma = grid.to_luma();
    let width = grid.width as u32;
    let height = grid.height as u32;
    let separators = LineTest::Separator(cfg.thresholds);
    let empty = empty_space_test(dominant_luma(luma), cfg.thresholds.empty_percent);
    lemma_boundary_list(width, line_marks(luma, Axis::Columns, separators));
    lemma_boundary_list(height, line_marks(luma, Axis::Rows, separators));
    lemma_boundary_list(width, line_marks(luma, Axis::Columns, empty));
    lemma_boundary_list(height, line_marks(luma, Axis::Rows, empty));
    let percent = cfg.thresholds.empty_percent;
    lemma_merge_close(
        empty_space_candidates(luma, Axis::Columns, percent),
        cfg.min_sprite_size,
        width,
    );
    lemma_merge_close(
        empty_space_candidates(luma, Axis::Rows, percent),
        cfg.min_sprite_size,
        height,
    );
    lemma_boundary_list_within(primary_columns(cfg, grid), width);
    lemma_boundary_list_within(primary_rows(cfg, grid), height);
    lemma_boundary_list_within(strip_columns(cfg, grid), width);
    lemma_boundary_list_within(band_rows(cfg, grid), height);
}

/// The frames assembled from two lists that stay within the grid all pass
/// the filter and lie inside the grid.
pub proof fn lemma_assembled_frames_fit(
    cfg: CutterConfig,
    grid: PixelGrid,
    xs: Seq<u32>,
    ys: Seq<u32>,
)
    requires
        within_extent(xs, grid.width),
        within_extent(ys, grid.height),
    ensures
        all_accepted(cfg, grid, assembled_frames(cfg, grid, xs, ys)),
        all_fit(grid, assembled_frames(cfg, grid, xs, ys)),
{
    let frames = assembled_frames(cfg, grid, xs, ys);
    lemma_assembled_frames(cfg, grid, xs, ys);
    assert forall|k: int| 0 <= k < frames.len() implies accepts(cfg, grid, #[trigger] frames[k])
        && frames[k].fits(grid) by {
        let f = frames[k];
        assert(frames.contains(f));
        assert(is_accepted_cell(cfg, grid, xs, ys, f));
        let (i, j) = choose|i: int, j: int|
            is_cell(xs, ys, i, j) && f == #[trigger] cell(xs, ys, i, j);
        lemma_cell_fits(grid, xs, ys, i, j);
    }
}

/// Detection never yields a frame whose width or height lies outside the
/// configured bounds, nor one whose visible pixels do not exceed the
/// configured fraction of its area, nor one that reaches beyond the image.
pub proof fn lemma_detected_frames_accepted(cfg: CutterConfig, grid: PixelGrid)
    requires
        grid.wf(),
    ensures
        all_accepted(cfg, grid, detected_frames(cfg, grid)),
        all_fit(grid, detected_frames(cfg, grid)),
{
    lemma_candidate_lists_within(cfg, grid);
    lemma_assembled_frames_fit(cfg, grid, primary_columns(cfg, grid), primary_rows(cfg, grid));
    lemma_assembled_frames_fit(cfg, grid, strip_columns(cfg, grid), full_span(grid.height));
    lemma_assembled_frames_fit(cfg, grid, full_span(grid.width), band_rows(cfg, grid));
}

/// Two boundary lists give no frame exactly when the filter accepts none of
/// their cells.
pub proof fn lemma_assembled_empty(cfg: CutterConfig, grid: PixelGrid, xs: Seq<u32>, ys: Seq<u32>)
    ensures
        assembled_frames(cfg, grid, xs, ys).len() == 0 <==> forall|i: int, j: int|
            is_cell(xs, ys, i, j) ==> !accepts(cfg, grid, #[trigger] cell(xs, ys, i, j)),
{
    let frames = assembled_frames(cfg, grid, xs, ys);
    lemma_assembled_frames(cfg, grid, xs, ys);
    if frames.len() == 0 {
        assert forall|i: int, j: int| is_cell(xs, ys, i, j) implies !accepts(
            cfg,
            grid,
            #[trigger] cell(xs, ys, i, j),
        ) by {
            if accepts(cfg, grid, cell(xs, ys, i, j)) {
                assert(is_accepted_cell(cfg, grid, xs, ys, cell(xs, ys, i, j)));
                assert(frames.contains(cell(xs, ys, i, j)));
            }
        }
    } else {
        let f = frames[0];
        assert(frames.contains(f));
        assert(is_accepted_cell(cfg, grid, xs, ys, f));
        let (i, j) = choose|i: int, j: int|
            is_cell(xs, ys, i, j) && f == #[trigger] cell(xs, ys, i, j);
        assert(is_cell(xs, ys, i, j) && accepts(cfg, grid, cell(xs, ys, i, j)));
    }
}

/// In a grid without a visible pixel, no rectangle holds a visible pixel.
pub proof fn lemma_nothing_visible(grid: PixelGrid, x: int, y: int, width: int, rows: int)
    requires
        nothing_visible(grid),
    ensures
        visible_in_rows(grid, x, y, width, rows) == 0,
    decreases rows,
{
    if rows > 0 {
        lemma_nothing_visible(grid, x, y, width, rows - 1);
        let row = visible_at(grid, x, y + rows - 1);
        assert forall|k: int| 0 <= k < width implies !#[trigger] row(k) by {
            if grid.contains(x + k, y + rows - 1) {
                assert(grid.at(x + k, y + rows - 1).a <= OPAQUE_ALPHA);
            }
        }
        lemma_count_none(width, row);
    }
}

/// In a grid of which every pixel is visible, the visible pixels of a
/// rectangle inside the grid are all its pixels.
pub proof fn lemma_everything_visible(grid: PixelGrid, x: int, y: int, width: int, rows: int)
    requires
        everything_visible(grid),
        0 <= x,
        0 <= y,
        0 <= width,
        0 <= rows,
        x + width <= grid.width,
        y + rows <= grid.height,
    ensures
        visible_in_rows(grid, x, y, width, rows) == rows * width,
    decreases rows,
{
    if rows > 0 {
        lemma_everything_visible(grid, x, y, width, rows - 1);
        let row = visible_at(grid, x, y + rows - 1);
        assert forall|k: int| 0 <= k < width implies #[trigger] row(k) by {
            assert(grid.contains(x + k, y + rows - 1));
            assert(grid.at(x + k, y + rows - 1).a > OPAQUE_ALPHA);
        }
        lemma_count_all(width, row);
        assert(rows * width == (rows - 1) * width + width) by (nonlinear_arith);
    } else {
        assert(rows * width == 0) by (nonlinear_arith)
            requires
                rows == 0,
        ;
    }
}

/// In a grid without a visible pixel the filter accepts no frame.
pub proof fn lemma_invisible_frame_rejected(cfg: CutterConfig, grid: PixelGrid, f: SpriteFrame)
    requires
        nothing_visible(grid),
    ensures
        !accepts(cfg, grid, f),
{
    lemma_nothing_visible(grid, f.x as int, f.y as int, f.width as int, f.height as int);
    assert(cfg.thresholds.content_percent * (f.width * f.height) >= 0) by (nonlinear_arith)
        requires
            cfg.thresholds.content_percent >= 0,
            f.width >= 0,
            f.height >= 0,
    ;
}

/// In a grid of which every pixel is visible, the filter accepts a frame
/// inside the grid exactly when the frame has an admissible size and the
/// content threshold is below a hundred percent.
pub proof fn lemma_visible_frame_accepted(cfg: CutterConfig, grid: PixelGrid, f: SpriteFrame)
    requires
        everything_visible(grid),
        f.fits(grid),
    ensures
        accepts(cfg, grid, f) <==> (admissible(cfg, f) && cfg.thresholds.content_percent < 100),
{
    lemma_everything_visible(grid, f.x as int, f.y as int, f.width as int, f.height as int);
    let area = f.width * f.height;
    let percent = cfg.thresholds.content_percent as int;
    assert(f.height * f.width == area) by (nonlinear_arith)
        requires
            area == f.width * f.height,
    ;
    assert(area > 0 <==> (f.width > 0 && f.height > 0)) by (nonlinear_arith)
        requires
            area == f.width * f.height,
            f.width >= 0,
            f.height >= 0,
    ;
    assert(100 * area > percent * area <==> (area > 0 && percent < 100)) by (nonlinear_arith)
        requires
            area >= 0,
            percent >= 0,
    ;
}

/// An image without a visible pixel yields no frame.
pub proof fn lemma_invisible_image_yields_no_frames(cfg: CutterConfig, grid: PixelGrid)
    requires
        nothing_visible(grid),
    ensures
        detected_frames(cfg, grid).len() == 0,
{
    assert forall|xs: Seq<u32>, ys: Seq<u32>| #[trigger]
        assembled_frames(cfg, grid, xs, ys).len() == 0 by {
        lemma_assembled_empty(cfg, grid, xs, ys);
        assert forall|i: int, j: int| is_cell(xs, ys, i, j) implies !accepts(
            cfg,
            grid,
            #[trigger] cell(xs, ys, i, j),
        ) by {
            lemma_invisible_frame_rejected(cfg, grid, cell(xs, ys, i, j));
        }
    }
}

/// Where every pixel is visible, two boundary lists that stay within the grid
/// give no frame exactly when the content threshold is a hundred percent or
/// more, or none of their cells has an admissible size.
pub proof fn lemma_visible_assembled_empty(
    cfg: CutterConfig,
    grid: PixelGrid,
    xs: Seq<u32>,
    ys: Seq<u32>,
)
    requires
        everything_visible(grid),
        within_extent(xs, grid.width),
        within_extent(ys, grid.height),
    ensures
        assembled_frames(cfg, grid, xs, ys).len() == 0 <==> (cfg.thresholds.content_percent >= 100
            || !has_admissible_cell(cfg, xs, ys)),
{
    lemma_assembled_empty(cfg, grid, xs, ys);
    assert forall|i: int, j: int| is_cell(xs, ys, i, j) implies (accepts(
        cfg,
        grid,
        #[trigger] cell(xs, ys, i, j),
    ) <==> (admissible(cfg, cell(xs, ys, i, j)) && cfg.thresholds.content_percent < 100)) by {
        lemma_cell_fits(grid, xs, ys, i, j);
        lemma_visible_frame_accepted(cfg, grid, cell(xs, ys, i, j));
    }
    if has_admissible_cell(cfg, xs, ys) && cfg.thresholds.content_percent < 100 {
        let (i, j) = choose|i: int, j: int|
            is_cell(xs, ys, i, j) && admissible(cfg, #[trigger] cell(xs, ys, i, j));
        assert(accepts(cfg, grid, cell(xs, ys, i, j)));
    }
}

/// An image that is narrower or lower than the smallest admissible sprite
/// yields no frame.
pub proof fn lemma_small_image_yields_no_frames(cfg: CutterConfig, grid: PixelGrid)
    requires
        grid.wf(),
        grid.width < cfg.min_sprite_size || grid.height < cfg.min_sprite_size,
    ensures
        detected_frames(cfg, grid).len() == 0,
{
    lemma_detected_frames_accepted(cfg, grid);
    let frames = detected_frames(cfg, grid);
    if frames.len() > 0 {
        assert(accepts(cfg, grid, frames[0]));
        assert(frames[0].fits(grid));
    }
}

impl SpritesheetCutter {
    /// Detects the sprite frames of an image.
    ///
    /// The frames are the accepted cells of the grid of detected boundaries
    /// in row-major order: row after row from the top, and each row from the
    /// left. If no cell is accepted, they are the strips of the fallback.
    pub fn detect_sprite_frames(&self, img: &RasterImage) -> (frames: Vec<SpriteFrame>)
        requires
            img.wf(),
        ensures
            frames@ == detected_frames(self.config, img@),
            all_accepted(self.config, img@, frames@),
            all_fit(img@, frames@),
    {
        let gray = img.to_luma8();
        let vertical = self.find_vertical_boundaries(&gray);
        let horizontal = self.find_horizontal_boundaries(&gray);
        let primary = self.assemble_frames(img, &vertical, &horizontal);
        let frames = if primary.len() > 0 {
            primary
        } else {
            self.fallback_on(img, &gray)
        };
        proof {
            let detected = detected_frames(self.config, img@);
            assert(frames@ == detected);
            img.lemma_wf();
            lemma_detected_frames_accepted(self.config, img@);
        }
        frames
    }
}

} // verus!

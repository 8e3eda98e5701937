//! Images of one colour throughout: what detection makes of them.
//!
//! Such an image has no structure to detect. Whether it yields frames is
//! decided by the visibility of its colour and by the sizes of the cells that
//! detection looks at, and by nothing else.

use vstd::prelude::*;
use crate::boundary::{boundary_list, marked_below};
use crate::color::{channel_distance, Color};
use crate::config::{CutterConfig, DetectionThresholds, OPAQUE_ALPHA};
use crate::count::{lemma_count_all, lemma_count_none};
use crate::detect::{
    detected_frames, everything_visible, has_admissible_candidate, lemma_candidate_lists_within,
    lemma_invisible_image_yields_no_frames, lemma_visible_assembled_empty,
    lemma_visible_frame_accepted, nothing_visible, primary_columns, primary_frames, primary_rows,
};
use crate::fallback::{band_rows, fallback_frames, full_span, strip_columns};
use crate::frame::{
    accepts, assembled_frames, cell, frame_at_origin, grid_frames, row_frames, whole_frame,
    SpriteFrame,
};
use crate::grid::{lemma_to_luma_at, Axis, LumaGrid, PixelGrid};
use crate::scan::{
    edge_at, edge_count, is_separator, line_marks, passing_at, passing_count, sample_passes,
    LineTest, SampleTest,
};
use crate::sprite::{finished, is_output_of, SheetOutput};

verus! {

/// The luma grid of a grid of one colour has one luma throughout: the luma
/// of that colour.
pub proof fn lemma_uniform_luma(grid: PixelGrid, c: Color)
    requires
        grid.wf(),
        grid.is_uniform(c),
    ensures
        grid.to_luma().wf(),
        grid.to_luma().is_uniform(c.luma()),
{
    let luma = grid.to_luma();
    assert forall|x: int, y: int| luma.contains(x, y) implies #[trigger] luma.at(x, y)
        == c.luma() by {
        lemma_to_luma_at(grid, x, y);
        assert(grid.at(x, y) == c);
    }
}

/// In a luma grid of one value throughout, a line inside the grid has no
/// edge, and either all of its samples pass a test or none does.
pub proof fn lemma_uniform_line(grid: LumaGrid, l: u8, axis: Axis, line: int, test: SampleTest)
    requires
        grid.is_uniform(l),
        0 <= line < grid.extent(axis),
    ensures
        forall|delta: u8| #[trigger] edge_count(grid, axis, line, delta) == 0,
        sample_passes(l, test) ==> passing_count(grid, axis, line, test) == grid.line_len(axis),
        !sample_passes(l, test) ==> passing_count(grid, axis, line, test) == 0,
{
    let len = grid.line_len(axis) as int;
    assert forall|pos: int| 0 <= pos < len implies grid.sample(axis, line, pos) == l by {
        match axis {
            Axis::Columns => {
                assert(grid.contains(line, pos));
                assert(grid.at(line, pos) == l);
            },
            Axis::Rows => {
                assert(grid.contains(pos, line));
                assert(grid.at(pos, line) == l);
            },
        }
    }
    assert forall|delta: u8| #[trigger] edge_count(grid, axis, line, delta) == 0 by {
        let edge = edge_at(grid, axis, line, delta);
        assert forall|pos: int| 0 <= pos < len - 1 implies !#[trigger] edge(pos) by {
            assert(grid.sample(axis, line, pos) == l);
            assert(grid.sample(axis, line, pos + 1) == l);
            assert(channel_distance(l, l) == 0);
        }
        lemma_count_none(len - 1, edge);
    }
    let passing = passing_at(grid, axis, line, test);
    if sample_passes(l, test) {
        assert forall|pos: int| 0 <= pos < len implies #[trigger] passing(pos) by {
            assert(grid.sample(axis, line, pos) == l);
        }
        lemma_count_all(len, passing);
    } else {
        assert forall|pos: int| 0 <= pos < len implies !#[trigger] passing(pos) by {
            assert(grid.sample(axis, line, pos) == l);
        }
        lemma_count_none(len, passing);
    }
}

/// In a luma grid of one value throughout that is not dark, no line inside
/// the grid is a separator.
pub proof fn lemma_uniform_bright_line(
    grid: LumaGrid,
    l: u8,
    axis: Axis,
    line: int,
    t: DetectionThresholds,
)
    requires
        grid.is_uniform(l),
        l >= t.darkness,
        0 <= line < grid.extent(axis),
    ensures
        !is_separator(grid, axis, line, t),
{
    lemma_uniform_line(grid, l, axis, line, SampleTest::Below { bound: t.darkness });
    assert(edge_count(grid, axis, line, t.edge_delta) == 0);
    let len = grid.line_len(axis) as int;
    assert(t.dark_percent * len >= 0 && t.edge_percent * len >= 0) by (nonlinear_arith)
        requires
            t.dark_percent >= 0,
            t.edge_percent >= 0,
            len >= 0,
    ;
}

/// Where no coordinate strictly between 0 and the last coordinate of an axis
/// is marked, the boundaries of the axis are its two ends.
pub proof fn lemma_unmarked_boundary_list(extent: u32, marked: spec_fn(int) -> bool)
    requires
        extent > 0,
        forall|c: int| 1 <= c < extent - 1 ==> !#[trigger] marked(c),
    ensures
        boundary_list(extent, marked) == seq![0u32, extent],
{
    lemma_nothing_marked_below(extent - 1, marked);
    assert(boundary_list(extent, marked) =~= seq![0u32, extent]);
}

/// Where no coordinate below `n` is marked, the list of marked coordinates
/// below `n` is empty.
proof fn lemma_nothing_marked_below(n: int, marked: spec_fn(int) -> bool)
    requires
        forall|c: int| 1 <= c < n ==> !#[trigger] marked(c),
    ensures
        marked_below(n, marked) == Seq::<u32>::empty(),
    decreases n,
{
    if n > 1 {
        lemma_nothing_marked_below(n - 1, marked);
    }
}

/// The frames assembled from the two ends of each axis are the one cell
/// between them, if the filter accepts it, and none otherwise.
pub proof fn lemma_single_cell(cfg: CutterConfig, grid: PixelGrid, width: u32, height: u32)
    ensures
        accepts(cfg, grid, frame_at_origin(width, height)) ==> assembled_frames(
            cfg,
            grid,
            seq![0u32, width],
            seq![0u32, height],
        ) == seq![frame_at_origin(width, height)],
        !accepts(cfg, grid, frame_at_origin(width, height)) ==> assembled_frames(
            cfg,
            grid,
            seq![0u32, width],
            seq![0u32, height],
        ) == Seq::<SpriteFrame>::empty(),
{
    let xs = seq![0u32, width];
    let ys = seq![0u32, height];
    let whole = frame_at_origin(width, height);
    assert(cell(xs, ys, 0, 0) == whole);
    assert(row_frames(cfg, grid, xs, ys, 0, 0) == Seq::<SpriteFrame>::empty());
    if accepts(cfg, grid, whole) {
        assert(row_frames(cfg, grid, xs, ys, 0, 1) =~= seq![whole]);
    } else {
        assert(row_frames(cfg, grid, xs, ys, 0, 1) =~= Seq::<SpriteFrame>::empty());
    }
    assert(grid_frames(cfg, grid, xs, ys, 0) == Seq::<SpriteFrame>::empty());
    assert(grid_frames(cfg, grid, xs, ys, 1) =~= row_frames(cfg, grid, xs, ys, 0, 1));
}

/// An image of one visible colour that is not dark is a single frame, the
/// whole image, if its size is admissible and the content threshold is below
/// a hundred percent.
pub proof fn lemma_uniform_bright_image_is_one_frame(cfg: CutterConfig, grid: PixelGrid, c: Color)
    requires
        grid.wf(),
        grid.is_uniform(c),
        c.a > OPAQUE_ALPHA,
        c.luma() >= cfg.thresholds.darkness,
        cfg.thresholds.content_percent < 100,
        grid.width > 0,
        grid.height > 0,
        cfg.admits_size(grid.width as int, grid.height as int),
    ensures
        detected_frames(cfg, grid) == seq![whole_frame(grid)],
{
    let luma = grid.to_luma();
    let width = grid.width as u32;
    let height = grid.height as u32;
    let whole = whole_frame(grid);
    let test = LineTest::Separator(cfg.thresholds);
    lemma_uniform_luma(grid, c);
    assert forall|line: int| 1 <= line < width - 1 implies !#[trigger] line_marks(
        luma,
        Axis::Columns,
        test,
    )(line) by {
        lemma_uniform_bright_line(luma, c.luma(), Axis::Columns, line, cfg.thresholds);
    }
    assert forall|line: int| 1 <= line < height - 1 implies !#[trigger] line_marks(
        luma,
        Axis::Rows,
        test,
    )(line) by {
        lemma_uniform_bright_line(luma, c.luma(), Axis::Rows, line, cfg.thresholds);
    }
    lemma_unmarked_boundary_list(width, line_marks(luma, Axis::Columns, test));
    lemma_unmarked_boundary_list(height, line_marks(luma, Axis::Rows, test));
    assert(primary_columns(cfg, grid) == seq![0u32, width]);
    assert(primary_rows(cfg, grid) == seq![0u32, height]);
    assert(everything_visible(grid));
    lemma_visible_frame_accepted(cfg, grid, whole);
    lemma_single_cell(cfg, grid, width, height);
    assert(primary_frames(cfg, grid) == seq![whole]);
}

/// An image of one colour throughout yields no frame exactly when its colour
/// is not visible, or the content threshold is a hundred percent or more, or
/// no cell that detection looks at has an admissible size.
pub proof fn lemma_uniform_image_frames(cfg: CutterConfig, grid: PixelGrid, c: Color)
    requires
        grid.wf(),
        grid.is_uniform(c),
    ensures
        detected_frames(cfg, grid).len() == 0 <==> (c.a <= OPAQUE_ALPHA
            || cfg.thresholds.content_percent >= 100 || !has_admissible_candidate(cfg, grid)),
{
    if c.a <= OPAQUE_ALPHA {
        assert(nothing_visible(grid));
        lemma_invisible_image_yields_no_frames(cfg, grid);
    } else {
        assert(everything_visible(grid));
        lemma_candidate_lists_within(cfg, grid);
        lemma_visible_assembled_empty(
            cfg,
            grid,
            primary_columns(cfg, grid),
            primary_rows(cfg, grid),
        );
        lemma_visible_assembled_empty(cfg, grid, strip_columns(cfg, grid), full_span(grid.height));
        lemma_visible_assembled_empty(cfg, grid, full_span(grid.width), band_rows(cfg, grid));
    }
}

/// An image of one colour throughout yields no frame, unless its colour is
/// visible, the content threshold is below a hundred percent, and some cell
/// that detection looks at has an admissible size.
pub proof fn lemma_uniform_image_yields_no_frames(cfg: CutterConfig, grid: PixelGrid, c: Color)
    requires
        grid.wf(),
        grid.is_uniform(c),
        c.a <= OPAQUE_ALPHA || cfg.thresholds.content_percent >= 100 || !has_admissible_candidate(
            cfg,
            grid,
        ),
    ensures
        primary_frames(cfg, grid).len() == 0,
        fallback_frames(cfg, grid).len() == 0,
        detected_frames(cfg, grid).len() == 0,
{
    lemma_uniform_image_frames(cfg, grid, c);
}

/// Where an image of one colour throughout yields no frame, what is written
/// for it is the whole image.
pub proof fn lemma_uniform_image_is_written_whole(
    cfg: CutterConfig,
    grid: PixelGrid,
    c: Color,
    stem: Seq<char>,
    file_name: Seq<char>,
    output: SheetOutput,
)
    requires
        grid.wf(),
        grid.is_uniform(c),
        c.a <= OPAQUE_ALPHA || cfg.thresholds.content_percent >= 100 || !has_admissible_candidate(
            cfg,
            grid,
        ),
        is_output_of(cfg, grid, stem, file_name, output),
    ensures
        output is Whole,
        output->Whole_0.name@ == file_name,
        output->Whole_0.image@ == finished(cfg, grid),
{
    lemma_uniform_image_frames(cfg, grid, c);
}

} // verus!

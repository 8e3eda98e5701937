//! Sprite frames, the content test, and the assembly of frames from two
//! boundary lists.

use vstd::prelude::*;
use crate::boundary::{nondecreasing, within_extent};
use crate::config::{CutterConfig, SpritesheetCutter, OPAQUE_ALPHA};
use crate::count::{count_upto, exceeds_percent, exceeds_percent_of};
use crate::grid::{lemma_area_bound, PixelGrid};
use crate::raster::RasterImage;

verus! {

/// A rectangle of an image that holds one sprite.
#[derive(Clone, Copy, Debug, PartialEq, Eq, Structural)]
pub struct SpriteFrame {
    pub x: u32,
    pub y: u32,
    pub width: u32,
    pub height: u32,
}

impl SpriteFrame {
    /// Whether the frame lies inside the grid.
    pub open spec fn fits(self, grid: PixelGrid) -> bool {
        self.x + self.width <= grid.width && self.y + self.height <= grid.height
    }
}

/// The frame at the origin with the given size.
pub open spec fn frame_at_origin(width: u32, height: u32) -> SpriteFrame {
    SpriteFrame { x: 0, y: 0, width, height }
}

/// The frame that covers a whole grid.
pub open spec fn whole_frame(grid: PixelGrid) -> SpriteFrame {
    frame_at_origin(grid.width as u32, grid.height as u32)
}

/// Whether the pixel `k` places right of `(x, y)` lies inside the grid and is
/// visible.
pub open spec fn visible_at(grid: PixelGrid, x: int, y: int) -> spec_fn(int) -> bool {
    |k: int| grid.contains(x + k, y) && grid.at(x + k, y).a > OPAQUE_ALPHA
}

/// Number of visible pixels among the `width` pixels of row `y` from column
/// `x` on.
pub open spec fn visible_in_row(grid: PixelGrid, x: int, y: int, width: int) -> nat {
    count_upto(width, visible_at(grid, x, y))
}

/// Number of visible pixels in the first `rows` rows of the rectangle at
/// `(x, y)` that is `width` wide.
pub open spec fn visible_in_rows(grid: PixelGrid, x: int, y: int, width: int, rows: int) -> nat
    decreases rows,
{
    if rows <= 0 {
        0
    } else {
        visible_in_rows(grid, x, y, width, rows - 1) + visible_in_row(
            grid,
            x,
            y + rows - 1,
            width,
        )
    }
}

/// Whether more than `percent` hundredths of the pixels of a rectangle are
/// visible. Positions of the rectangle outside the grid count as pixels that
/// are not visible.
pub open spec fn has_content(
    grid: PixelGrid,
    x: int,
    y: int,
    width: int,
    height: int,
    percent: int,
) -> bool {
    exceeds_percent(visible_in_rows(grid, x, y, width, height) as int, width * height, percent)
}

/// Whether a frame passes the filter: its size lies within the configured
/// bounds, and it holds content.
pub open spec fn accepts(cfg: CutterConfig, grid: PixelGrid, f: SpriteFrame) -> bool {
    &&& cfg.admits_size(f.width as int, f.height as int)
    &&& has_content(
        grid,
        f.x as int,
        f.y as int,
        f.width as int,
        f.height as int,
        cfg.thresholds.content_percent as int,
    )
}

/// The cell of the boundary grid between boundaries `i` and `i + 1` of `xs`
/// and boundaries `j` and `j + 1` of `ys`.
pub open spec fn cell(xs: Seq<u32>, ys: Seq<u32>, i: int, j: int) -> SpriteFrame {
    SpriteFrame {
        x: xs[i],
        y: ys[j],
        width: (xs[i + 1] - xs[i]) as u32,
        height: (ys[j + 1] - ys[j]) as u32,
    }
}

/// The accepted cells among the first `i` cells of row `j` of the boundary
/// grid, from the left.
pub open spec fn row_frames(
    cfg: CutterConfig,
    grid: PixelGrid,
    xs: Seq<u32>,
    ys: Seq<u32>,
    j: int,
    i: int,
) -> Seq<SpriteFrame>
    decreases i,
{
    if i <= 0 {
        Seq::empty()
    } else if accepts(cfg, grid, cell(xs, ys, i - 1, j)) {
        row_frames(cfg, grid, xs, ys, j, i - 1).push(cell(xs, ys, i - 1, j))
    } else {
        row_frames(cfg, grid, xs, ys, j, i - 1)
    }
}

/// The accepted cells of the first `j` rows of the boundary grid: row after
/// row from the top, and each row from the left.
pub open spec fn grid_frames(
    cfg: CutterConfig,
    grid: PixelGrid,
    xs: Seq<u32>,
    ys: Seq<u32>,
    j: int,
) -> Seq<SpriteFrame>
    decreases j,
{
    if j <= 0 {
        Seq::empty()
    } else {
        grid_frames(cfg, grid, xs, ys, j - 1) + row_frames(cfg, grid, xs, ys, j - 1, xs.len() - 1)
    }
}

/// The frames that two boundary lists give: the accepted cells of their
/// whole grid, in row-major order.
pub open spec fn assembled_frames(
    cfg: CutterConfig,
    grid: PixelGrid,
    xs: Seq<u32>,
    ys: Seq<u32>,
) -> Seq<SpriteFrame> {
    grid_frames(cfg, grid, xs, ys, ys.len() - 1)
}

/// Whether `(i, j)` names a cell of the grid of two boundary lists.
pub open spec fn is_cell(xs: Seq<u32>, ys: Seq<u32>, i: int, j: int) -> bool {
    0 <= i < xs.len() - 1 && 0 <= j < ys.len() - 1
}

/// Whether a frame is one of the accepted cells of the grid of two boundary
/// lists.
pub open spec fn is_accepted_cell(
    cfg: CutterConfig,
    grid: PixelGrid,
    xs: Seq<u32>,
    ys: Seq<u32>,
    f: SpriteFrame,
) -> bool {
    &&& accepts(cfg, grid, f)
    &&& exists|i: int, j: int| is_cell(xs, ys, i, j) && f == #[trigger] cell(xs, ys, i, j)
}

/// Whether a frame is one of the accepted cells among the first `i` cells of
/// row `j`.
pub open spec fn is_accepted_in_row(
    cfg: CutterConfig,
    grid: PixelGrid,
    xs: Seq<u32>,
    ys: Seq<u32>,
    j: int,
    i: int,
    f: SpriteFrame,
) -> bool {
    &&& accepts(cfg, grid, f)
    &&& exists|c: int| 0 <= c < i && f == #[trigger] cell(xs, ys, c, j)
}

/// Whether a frame is one of the accepted cells of the first `j` rows.
pub open spec fn is_accepted_in_rows(
    cfg: CutterConfig,
    grid: PixelGrid,
    xs: Seq<u32>,
    ys: Seq<u32>,
    j: int,
    f: SpriteFrame,
) -> bool {
    &&& accepts(cfg, grid, f)
    &&& exists|c: int, r: int|
        0 <= c < xs.len() - 1 && 0 <= r < j && f == #[trigger] cell(xs, ys, c, r)
}

/// Whether the filter accepts every frame of a list.
pub open spec fn all_accepted(
    cfg: CutterConfig,
    grid: PixelGrid,
    frames: Seq<SpriteFrame>,
) -> bool {
    forall|k: int| 0 <= k < frames.len() ==> accepts(cfg, grid, #[trigger] frames[k])
}

/// Whether every frame of a list lies inside the grid.
pub open spec fn all_fit(grid: PixelGrid, frames: Seq<SpriteFrame>) -> bool {
    forall|k: int| 0 <= k < frames.len() ==> (#[trigger] frames[k]).fits(grid)
}

/// Each frame of a row is an accepted cell of that row, and each accepted
/// cell of the row is among its frames.
pub proof fn lemma_row_frames(
    cfg: CutterConfig,
    grid: PixelGrid,
    xs: Seq<u32>,
    ys: Seq<u32>,
    j: int,
    i: int,
)
    ensures
        forall|k: int|
            0 <= k < row_frames(cfg, grid, xs, ys, j, i).len() ==> is_accepted_in_row(
                cfg,
                grid,
                xs,
                ys,
                j,
                i,
                #[trigger] row_frames(cfg, grid, xs, ys, j, i)[k],
            ),
        forall|c: int|
            0 <= c < i && accepts(cfg, grid, #[trigger] cell(xs, ys, c, j)) ==> row_frames(
                cfg,
                grid,
                xs,
                ys,
                j,
                i,
            ).contains(cell(xs, ys, c, j)),
    decreases i,
{
    let frames = row_frames(cfg, grid, xs, ys, j, i);
    if i > 0 {
        let rest = row_frames(cfg, grid, xs, ys, j, i - 1);
        let last = cell(xs, ys, i - 1, j);
        lemma_row_frames(cfg, grid, xs, ys, j, i - 1);
        assert forall|k: int| 0 <= k < frames.len() implies is_accepted_in_row(
            cfg,
            grid,
            xs,
            ys,
            j,
            i,
            #[trigger] frames[k],
        ) by {
            if k < rest.len() {
                assert(frames[k] == rest[k]);
                assert(is_accepted_in_row(cfg, grid, xs, ys, j, i - 1, rest[k]));
                let c = choose|c: int| 0 <= c < i - 1 && rest[k] == #[trigger] cell(xs, ys, c, j);
                assert(0 <= c < i && frames[k] == cell(xs, ys, c, j));
            } else {
                assert(frames[k] == last);
                assert(0 <= i - 1 < i && frames[k] == cell(xs, ys, i - 1, j));
            }
        }
        assert forall|c: int|
            0 <= c < i && accepts(cfg, grid, #[trigger] cell(xs, ys, c, j)) implies frames.contains(
            cell(xs, ys, c, j),
        ) by {
            if c < i - 1 {
                assert(rest.contains(cell(xs, ys, c, j)));
                let k = choose|k: int| 0 <= k < rest.len() && rest[k] == cell(xs, ys, c, j);
                assert(frames[k] == cell(xs, ys, c, j));
            } else {
                assert(frames[frames.len() - 1] == last);
            }
        }
    }
}

/// Each frame of the first `j` rows is an accepted cell of one of them, and
/// each accepted cell of these rows is among the frames.
pub proof fn lemma_grid_frames(
    cfg: CutterConfig,
    grid: PixelGrid,
    xs: Seq<u32>,
    ys: Seq<u32>,
    j: int,
)
    ensures
        forall|k: int|
            0 <= k < grid_frames(cfg, grid, xs, ys, j).len() ==> is_accepted_in_rows(
                cfg,
                grid,
                xs,
                ys,
                j,
                #[trigger] grid_frames(cfg, grid, xs, ys, j)[k],
            ),
        forall|c: int, r: int|
            0 <= c < xs.len() - 1 && 0 <= r < j && accepts(
                cfg,
                grid,
                #[trigger] cell(xs, ys, c, r),
            ) ==> grid_frames(cfg, grid, xs, ys, j).contains(cell(xs, ys, c, r)),
    decreases j,
{
    let frames = grid_frames(cfg, grid, xs, ys, j);
    if j > 0 {
        let rest = grid_frames(cfg, grid, xs, ys, j - 1);
        let row = row_frames(cfg, grid, xs, ys, j - 1, xs.len() - 1);
        lemma_grid_frames(cfg, grid, xs, ys, j - 1);
        lemma_row_frames(cfg, grid, xs, ys, j - 1, xs.len() - 1);
        assert(frames == rest + row);
        assert forall|k: int| 0 <= k < frames.len() implies is_accepted_in_rows(
            cfg,
            grid,
            xs,
            ys,
            j,
            #[trigger] frames[k],
        ) by {
            if k < rest.len() {
                assert(frames[k] == rest[k]);
                assert(is_accepted_in_rows(cfg, grid, xs, ys, j - 1, rest[k]));
                let (c, r) = choose|c: int, r: int|
                    0 <= c < xs.len() - 1 && 0 <= r < j - 1 && rest[k] == #[trigger] cell(
                        xs,
                        ys,
                        c,
                        r,
                    );
                assert(0 <= c < xs.len() - 1 && 0 <= r < j && frames[k] == cell(xs, ys, c, r));
            } else {
                let at = k - rest.len();
                assert(frames[k] == row[at]);
                assert(is_accepted_in_row(cfg, grid, xs, ys, j - 1, xs.len() - 1, row[at]));
                let c = choose|c: int|
                    0 <= c < xs.len() - 1 && row[at] == #[trigger] cell(xs, ys, c, j - 1);
                assert(0 <= c < xs.len() - 1 && 0 <= j - 1 < j && frames[k] == cell(
                    xs,
                    ys,
                    c,
                    j - 1,
                ));
            }
        }
        assert forall|c: int, r: int|
            0 <= c < xs.len() - 1 && 0 <= r < j && accepts(
                cfg,
                grid,
                #[trigger] cell(xs, ys, c, r),
            ) implies frames.contains(cell(xs, ys, c, r)) by {
            if r < j - 1 {
                assert(rest.contains(cell(xs, ys, c, r)));
                let k = choose|k: int| 0 <= k < rest.len() && rest[k] == cell(xs, ys, c, r);
                assert(frames[k] == cell(xs, ys, c, r));
            } else {
                assert(row.contains(cell(xs, ys, c, r)));
                let k = choose|k: int| 0 <= k < row.len() && row[k] == cell(xs, ys, c, r);
                assert(frames[rest.len() + k] == cell(xs, ys, c, r));
            }
        }
    }
}

/// The assembled frames are exactly the accepted cells of the boundary grid:
/// every frame passes the filter and is a cell, and no accepted cell is left
/// out.
pub proof fn lemma_assembled_frames(cfg: CutterConfig, grid: PixelGrid, xs: Seq<u32>, ys: Seq<u32>)
    ensures
        forall|f: SpriteFrame|
            assembled_frames(cfg, grid, xs, ys).contains(f) <==> is_accepted_cell(
                cfg,
                grid,
                xs,
                ys,
                f,
            ),
{
    let frames = assembled_frames(cfg, grid, xs, ys);
    lemma_grid_frames(cfg, grid, xs, ys, ys.len() - 1);
    assert forall|f: SpriteFrame| frames.contains(f) <==> is_accepted_cell(
        cfg,
        grid,
        xs,
        ys,
        f,
    ) by {
        if frames.contains(f) {
            let k = choose|k: int| 0 <= k < frames.len() && frames[k] == f;
            assert(is_accepted_in_rows(cfg, grid, xs, ys, ys.len() - 1, frames[k]));
            let (c, r) = choose|c: int, r: int|
                0 <= c < xs.len() - 1 && 0 <= r < ys.len() - 1 && frames[k] == #[trigger] cell(
                    xs,
                    ys,
                    c,
                    r,
                );
            assert(is_cell(xs, ys, c, r) && f == cell(xs, ys, c, r));
        }
        if is_accepted_cell(cfg, grid, xs, ys, f) {
            let (c, r) = choose|c: int, r: int|
                is_cell(xs, ys, c, r) && f == #[trigger] cell(xs, ys, c, r);
            assert(frames.contains(cell(xs, ys, c, r)));
        }
    }
}

/// A cell of the grid of two lists that stay within the grid of pixels lies
/// inside it.
pub proof fn lemma_cell_fits(grid: PixelGrid, xs: Seq<u32>, ys: Seq<u32>, i: int, j: int)
    requires
        within_extent(xs, grid.width),
        within_extent(ys, grid.height),
        is_cell(xs, ys, i, j),
    ensures
        cell(xs, ys, i, j).fits(grid),
        cell(xs, ys, i, j).width == xs[i + 1] - xs[i],
        cell(xs, ys, i, j).height == ys[j + 1] - ys[j],
{
    assert(xs[i] <= xs[i + 1] <= grid.width);
    assert(ys[j] <= ys[j + 1] <= grid.height);
}

impl SpritesheetCutter {
    /// Tests whether the rectangle at `(x, y)` of the given size holds
    /// content: whether its visible pixels, those with an alpha above
    /// `OPAQUE_ALPHA`, exceed the configured fraction of its area.
    pub fn frame_has_content(
        &self,
        img: &RasterImage,
        x: u32,
        y: u32,
        width: u32,
        height: u32,
    ) -> (content: bool)
        requires
            img.wf(),
        ensures
            content == has_content(
                img@,
                x as int,
                y as int,
                width as int,
                height as int,
                self.config.thresholds.content_percent as int,
            ),
    {
        let mut visible: u64 = 0;
        let mut j: u32 = 0;
        proof {
            lemma_area_bound(width, height);
        }
        while j < height
            invariant
                img.wf(),
                j <= height,
                width * height <= 0xFFFF_FFFE_0000_0001,
                visible == visible_in_rows(img@, x as int, y as int, width as int, j as int),
                visible <= j * width,
            decreases height - j,
        {
            let ghost in_row = visible_at(img@, x as int, y + j);
            let py: u64 = y as u64 + j as u64;
            let mut seen: u32 = 0;
            let mut k: u32 = 0;
            while k < width
                invariant
                    img.wf(),
                    k <= width,
                    py == y + j,
                    in_row == visible_at(img@, x as int, y + j),
                    seen <= k,
                    seen == count_upto(k as int, in_row),
                decreases width - k,
            {
                let px: u64 = x as u64 + k as u64;
                if px <= u32::MAX as u64 && py <= u32::MAX as u64 {
                    if let Some(alpha) = img.get_alpha(px as u32, py as u32) {
                        if alpha > OPAQUE_ALPHA {
                            seen = seen + 1;
                        }
                    }
                }
                k = k + 1;
            }
            proof {
                assert((j + 1) * width == j * width + width) by (nonlinear_arith);
                assert((j + 1) * width <= height * width) by (nonlinear_arith)
                    requires
                        j + 1 <= height,
                        0 <= width,
                ;
                assert(height * width == width * height) by (nonlinear_arith);
            }
            visible = visible + seen as u64;
            j = j + 1;
        }
        exceeds_percent_of(
            visible,
            (width as u64) * (height as u64),
            self.config.thresholds.content_percent,
        )
    }

    /// Crosses two boundary lists into the cells of their grid and keeps the
    /// cells that pass the filter, in row-major order: row after row from the
    /// top, and each row from the left.
    pub fn assemble_frames(&self, img: &RasterImage, xs: &Vec<u32>, ys: &Vec<u32>) -> (frames: Vec<
        SpriteFrame,
    >)
        requires
            img.wf(),
            nondecreasing(xs@),
            nondecreasing(ys@),
        ensures
            frames@ == assembled_frames(self.config, img@, xs@, ys@),
            all_accepted(self.config, img@, frames@),
    {
        proof {
            lemma_grid_frames(self.config, img@, xs@, ys@, ys@.len() - 1);
        }
        let mut frames: Vec<SpriteFrame> = Vec::new();
        let columns: usize = if xs.len() > 0 {
            xs.len() - 1
        } else {
            0
        };
        let rows: usize = if ys.len() > 0 {
            ys.len() - 1
        } else {
            0
        };
        let mut j: usize = 0;
        while j < rows
            invariant
                img.wf(),
                nondecreasing(xs@),
                nondecreasing(ys@),
                columns == xs@.len() - 1 || (columns == 0 && xs@.len() == 0),
                rows == ys@.len() - 1 || (rows == 0 && ys@.len() == 0),
                j <= rows,
                frames@ == grid_frames(self.config, img@, xs@, ys@, j as int),
            decreases rows - j,
        {
            let ghost done = frames@;
            let mut i: usize = 0;
            while i < columns
                invariant
                    img.wf(),
                    nondecreasing(xs@),
                    nondecreasing(ys@),
                    columns == xs@.len() - 1 || (columns == 0 && xs@.len() == 0),
                    rows == ys@.len() - 1,
                    j < rows,
                    i <= columns,
                    frames@ == done + row_frames(self.config, img@, xs@, ys@, j as int, i as int),
                decreases columns - i,
            {
                let x = xs[i];
                let y = ys[j];
                let frame_width = xs[i + 1] - x;
                let frame_height = ys[j + 1] - y;
                let ghost before = row_frames(self.config, img@, xs@, ys@, j as int, i as int);
                if frame_width >= self.config.min_sprite_size && frame_height
                    >= self.config.min_sprite_size && frame_width <= self.config.max_sprite_size
                    && frame_height <= self.config.max_sprite_size && self.frame_has_content(
                    img,
                    x,
                    y,
                    frame_width,
                    frame_height,
                ) {
                    frames.push(SpriteFrame { x, y, width: frame_width, height: frame_height });
                    assert(frames@ =~= done + before.push(cell(xs@, ys@, i as int, j as int)));
                }
                i = i + 1;
            }
            proof {
                if columns == 0 {
                    assert(row_frames(self.config, img@, xs@, ys@, j as int, xs@.len() - 1)
                        =~= Seq::<SpriteFrame>::empty());
                }
            }
            j = j + 1;
        }
        frames
    }
}

} // verus!

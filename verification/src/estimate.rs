//! Estimates of the size of the first sprite of a sheet: the distance from
//! the first line with content to the first gap behind it.
//!
//! Detection does not use these estimates; they are an alternative for
//! sheets of which all sprites have one size.

use vstd::prelude::*;
use crate::config::SpritesheetCutter;
use crate::fallback::dominant_luma;
use crate::grid::{Axis, LumaGrid};
use crate::raster::{GrayscaleView, RasterImage};
use crate::scan::{
    as_line, find_first_line, first_passing_line, lemma_first_marked, line_marks, LineTest,
    SampleTest,
};

verus! {

/// A sample above this luma is content; one at or below it is dark.
pub const CONTENT_LUMA: u8 = 20;

/// A line holds content when more than this percentage of it is content.
pub const CONTENT_PERCENT: u32 = 10;

/// A line is a gap when more than this percentage of it is dark.
pub const GAP_PERCENT: u32 = 80;

/// Luma distance from the dominant luma within which a sample counts as
/// backdrop.
pub const BACKDROP_DISTANCE: u8 = 10;

/// A line holds a sprite when more than this percentage of it is not
/// backdrop.
pub const FOREGROUND_PERCENT: u32 = 5;

/// A line is backdrop when more than this percentage of it is backdrop.
pub const BACKDROP_PERCENT: u32 = 70;

/// The test for a line with content.
pub open spec fn content_test() -> LineTest {
    LineTest::Mostly { test: SampleTest::Above { bound: CONTENT_LUMA }, percent: CONTENT_PERCENT }
}

/// The test for a gap: a line that is mostly dark.
pub open spec fn gap_test() -> LineTest {
    LineTest::Mostly {
        test: SampleTest::Below { bound: (CONTENT_LUMA + 1) as u8 },
        percent: GAP_PERCENT,
    }
}

/// The test for a line that holds part of a sprite in front of a backdrop of
/// the given luma.
pub open spec fn foreground_test(backdrop: u8) -> LineTest {
    LineTest::Mostly {
        test: SampleTest::Far { center: backdrop, distance: BACKDROP_DISTANCE },
        percent: FOREGROUND_PERCENT,
    }
}

/// The test for a line that is mostly backdrop of the given luma.
pub open spec fn backdrop_test(backdrop: u8) -> LineTest {
    LineTest::Mostly {
        test: SampleTest::Near { center: backdrop, distance: BACKDROP_DISTANCE },
        percent: BACKDROP_PERCENT,
    }
}

/// The distance from the first line that passes `start` to the first line
/// behind it that passes `end`, if there are such lines.
pub open spec fn first_run(grid: LumaGrid, axis: Axis, start: LineTest, end: LineTest) -> Option<
    int,
> {
    match first_passing_line(grid, axis, 0, start) {
        Some(s) => match first_passing_line(grid, axis, s + 1, end) {
            Some(e) => Some(e - s),
            None => None,
        },
        None => None,
    }
}

/// The estimated width of the first sprite: the distance from the first
/// column with content to the first gap behind it; failing that, the distance
/// from the first column that stands out from the dominant luma to the first
/// backdrop column behind it; failing that, 0.
pub open spec fn estimated_width(grid: LumaGrid) -> int {
    match first_run(grid, Axis::Columns, content_test(), gap_test()) {
        Some(w) => w,
        None => match first_run(
            grid,
            Axis::Columns,
            foreground_test(dominant_luma(grid)),
            backdrop_test(dominant_luma(grid)),
        ) {
            Some(w) => w,
            None => 0,
        },
    }
}

/// The estimated height of the first sprite: the distance from the first row
/// with content to the first gap behind it; failing that, 0.
pub open spec fn estimated_height(grid: LumaGrid) -> int {
    match first_run(grid, Axis::Rows, content_test(), gap_test()) {
        Some(h) => h,
        None => 0,
    }
}

/// A run starts inside the axis and ends inside it, so that its length is
/// positive and less than the extent.
pub proof fn lemma_first_run_bounds(grid: LumaGrid, axis: Axis, start: LineTest, end: LineTest)
    ensures
        first_run(grid, axis, start, end) matches Some(n) ==> 0 < n < grid.extent(axis),
{
    let extent = grid.extent(axis) as int;
    lemma_first_marked(0, extent, line_marks(grid, axis, start));
    if let Some(s) = first_passing_line(grid, axis, 0, start) {
        lemma_first_marked(s + 1, extent, line_marks(grid, axis, end));
    }
}

/// Measures the distance from the first line that passes `start` to the first
/// line behind it that passes `end`.
fn measure_first_run(gray: &GrayscaleView, axis: Axis, start: &LineTest, end: &LineTest) -> (run:
    Option<u32>)
    requires
        gray.wf(),
    ensures
        as_line(run) == first_run(gray@, axis, *start, *end),
{
    match find_first_line(gray, axis, 0, start) {
        Some(first) => {
            proof {
                lemma_first_marked(
                    0,
                    gray@.extent(axis) as int,
                    line_marks(gray@, axis, *start),
                );
            }
            match find_first_line(gray, axis, first + 1, end) {
                Some(gap) => {
                    proof {
                        lemma_first_marked(
                            first + 1,
                            gray@.extent(axis) as int,
                            line_marks(gray@, axis, *end),
                        );
                    }
                    Some(gap - first)
                },
                None => None,
            }
        },
        None => None,
    }
}

impl SpritesheetCutter {
    /// Estimates the width of the first sprite of a sheet, 0 where no sprite
    /// is found.
    pub fn estimate_sprite_width(&self, img: &RasterImage) -> (width: u32)
        requires
            img.wf(),
        ensures
            width == estimated_width(img@.to_luma()),
            width < img.width || width == 0,
    {
        let gray = img.to_luma8();
        let content = LineTest::Mostly {
            test: SampleTest::Above { bound: CONTENT_LUMA },
            percent: CONTENT_PERCENT,
        };
        let gap = LineTest::Mostly {
            test: SampleTest::Below { bound: CONTENT_LUMA + 1 },
            percent: GAP_PERCENT,
        };
        proof {
            lemma_first_run_bounds(gray@, Axis::Columns, content, gap);
        }
        if let Some(width) = measure_first_run(&gray, Axis::Columns, &content, &gap) {
            return width;
        }
        let backdrop = self.detect_most_common_color(&gray);
        let foreground = LineTest::Mostly {
            test: SampleTest::Far { center: backdrop, distance: BACKDROP_DISTANCE },
            percent: FOREGROUND_PERCENT,
        };
        let behind = LineTest::Mostly {
            test: SampleTest::Near { center: backdrop, distance: BACKDROP_DISTANCE },
            percent: BACKDROP_PERCENT,
        };
        proof {
            lemma_first_run_bounds(gray@, Axis::Columns, foreground, behind);
        }
        match measure_first_run(&gray, Axis::Columns, &foreground, &behind) {
            Some(width) => width,
            None => 0,
        }
    }

    /// Estimates the height of the first sprite of a sheet, 0 where no sprite
    /// is found.
    pub fn estimate_sprite_height(&self, img: &RasterImage) -> (height: u32)
        requires
            img.wf(),
        ensures
            height == estimated_height(img@.to_luma()),
            height < img.height || height == 0,
    {
        let gray = img.to_luma8();
        let content = LineTest::Mostly {
            test: SampleTest::Above { bound: CONTENT_LUMA },
            percent: CONTENT_PERCENT,
        };
        let gap = LineTest::Mostly {
            test: SampleTest::Below { bound: CONTENT_LUMA + 1 },
            percent: GAP_PERCENT,
        };
        proof {
            lemma_first_run_bounds(gray@, Axis::Rows, content, gap);
        }
        match measure_first_run(&gray, Axis::Rows, &content, &gap) {
            Some(height) => height,
            None => 0,
        }
    }
}

} // verus!

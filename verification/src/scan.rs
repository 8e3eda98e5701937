//! Scans of single lines of a luma view: how many samples of a column or of
//! a row pass a test, how often the luma jumps along the line, and whether
//! the line as a whole passes a test.

use vstd::prelude::*;
use crate::color::{abs_diff, channel_distance};
use crate::config::DetectionThresholds;
use crate::count::{count_upto, exceeds_percent, exceeds_percent_of};
use crate::grid::{Axis, LumaGrid};
use crate::raster::GrayscaleView;

verus! {

/// A test on one luma sample.
#[derive(Clone, Copy, Debug, PartialEq, Eq, Structural)]
pub enum SampleTest {
    /// The luma is below the bound.
    Below { bound: u8 },
    /// The luma is above the bound.
    Above { bound: u8 },
    /// The luma lies within `distance` of `center`.
    Near { center: u8, distance: u8 },
    /// The luma lies farther than `distance` from `center`.
    Far { center: u8, distance: u8 },
}

/// A test on a whole line.
#[derive(Clone, Copy, Debug, PartialEq, Eq, Structural)]
pub enum LineTest {
    /// The line is a separator under the given thresholds.
    Separator(DetectionThresholds),
    /// More than `percent` hundredths of the samples of the line pass `test`.
    Mostly { test: SampleTest, percent: u32 },
}

/// Whether a luma passes a sample test.
pub open spec fn sample_passes(l: u8, test: SampleTest) -> bool {
    match test {
        SampleTest::Below { bound } => l < bound,
        SampleTest::Above { bound } => l > bound,
        SampleTest::Near { center, distance } => channel_distance(l, center) <= distance,
        SampleTest::Far { center, distance } => channel_distance(l, center) > distance,
    }
}

/// Whether sample `pos` of a line passes a test.
pub open spec fn passing_at(grid: LumaGrid, axis: Axis, line: int, test: SampleTest) -> spec_fn(
    int,
) -> bool {
    |pos: int| sample_passes(grid.sample(axis, line, pos), test)
}

/// Number of samples of a line that pass a test.
pub open spec fn passing_count(grid: LumaGrid, axis: Axis, line: int, test: SampleTest) -> nat {
    count_upto(grid.line_len(axis) as int, passing_at(grid, axis, line, test))
}

/// Whether more than `percent` hundredths of the samples of a line pass a
/// test.
pub open spec fn mostly(
    grid: LumaGrid,
    axis: Axis,
    line: int,
    test: SampleTest,
    percent: u32,
) -> bool {
    exceeds_percent(
        passing_count(grid, axis, line, test) as int,
        grid.line_len(axis) as int,
        percent as int,
    )
}

/// Whether the luma changes by more than `delta` between sample `pos` of a
/// line and the next one.
pub open spec fn edge_at(grid: LumaGrid, axis: Axis, line: int, delta: u8) -> spec_fn(int) -> bool {
    |pos: int|
        channel_distance(grid.sample(axis, line, pos), grid.sample(axis, line, pos + 1)) > delta
}

/// Number of pairs of adjacent samples of a line that form an edge.
pub open spec fn edge_count(grid: LumaGrid, axis: Axis, line: int, delta: u8) -> nat {
    count_upto(grid.line_len(axis) - 1, edge_at(grid, axis, line, delta))
}

/// Whether a line separates sprites: its dark samples exceed the dark
/// fraction of its length, or its edges exceed the edge fraction of its
/// length.
pub open spec fn is_separator(
    grid: LumaGrid,
    axis: Axis,
    line: int,
    t: DetectionThresholds,
) -> bool {
    ||| mostly(grid, axis, line, SampleTest::Below { bound: t.darkness }, t.dark_percent)
    ||| exceeds_percent(
        edge_count(grid, axis, line, t.edge_delta) as int,
        grid.line_len(axis) as int,
        t.edge_percent as int,
    )
}

/// Whether a line passes a test.
pub open spec fn line_passes(grid: LumaGrid, axis: Axis, line: int, test: LineTest) -> bool {
    match test {
        LineTest::Separator(t) => is_separator(grid, axis, line, t),
        LineTest::Mostly { test, percent } => mostly(grid, axis, line, test, percent),
    }
}

/// A line test as a property of line numbers.
pub open spec fn line_marks(grid: LumaGrid, axis: Axis, test: LineTest) -> spec_fn(int) -> bool {
    |line: int| line_passes(grid, axis, line, test)
}

/// The first marked integer from `from` up to, but without, `to`.
pub open spec fn first_marked(from: int, to: int, marked: spec_fn(int) -> bool) -> Option<int>
    decreases to - from,
{
    if from >= to {
        None
    } else if marked(from) {
        Some(from)
    } else {
        first_marked(from + 1, to, marked)
    }
}

/// The first line from `from` on that passes a test.
pub open spec fn first_passing_line(
    grid: LumaGrid,
    axis: Axis,
    from: int,
    test: LineTest,
) -> Option<int> {
    first_marked(from, grid.extent(axis) as int, line_marks(grid, axis, test))
}

/// Whether `found` tells the first marked integer of a range: the integer is
/// marked, lies in the range, and has no marked integer of the range before
/// it; or there is none, and no integer of the range is marked.
pub open spec fn is_first_marked(
    from: int,
    to: int,
    marked: spec_fn(int) -> bool,
    found: Option<int>,
) -> bool {
    match found {
        Some(k) => from <= k < to && marked(k) && forall|j: int|
            from <= j < k ==> !#[trigger] marked(j),
        None => forall|j: int| from <= j < to ==> !#[trigger] marked(j),
    }
}

/// A line number, or none, as an integer.
pub open spec fn as_line(found: Option<u32>) -> Option<int> {
    match found {
        Some(line) => Some(line as int),
        None => None,
    }
}

/// `first_marked` tells the first marked integer of its range.
pub proof fn lemma_first_marked(from: int, to: int, marked: spec_fn(int) -> bool)
    ensures
        is_first_marked(from, to, marked, first_marked(from, to, marked)),
    decreases to - from,
{
    if from < to && !marked(from) {
        lemma_first_marked(from + 1, to, marked);
    }
}

/// Decides whether a luma passes a sample test.
pub fn check_sample(l: u8, test: &SampleTest) -> (passes: bool)
    ensures
        passes == sample_passes(l, *test),
{
    match test {
        SampleTest::Below { bound } => l < *bound,
        SampleTest::Above { bound } => l > *bound,
        SampleTest::Near { center, distance } => abs_diff(l, *center) <= *distance,
        SampleTest::Far { center, distance } => abs_diff(l, *center) > *distance,
    }
}

/// Counts the samples of a line that pass a test.
pub fn count_passing(gray: &GrayscaleView, axis: Axis, line: u32, test: &SampleTest) -> (n: u32)
    requires
        gray.wf(),
        line < gray@.extent(axis),
    ensures
        n == passing_count(gray@, axis, line as int, *test),
{
    let len = gray.line_len(axis);
    let ghost passing = passing_at(gray@, axis, line as int, *test);
    let mut n: u32 = 0;
    let mut pos: u32 = 0;
    while pos < len
        invariant
            gray.wf(),
            line < gray@.extent(axis),
            len == gray@.line_len(axis),
            passing == passing_at(gray@, axis, line as int, *test),
            pos <= len,
            n <= pos,
            n == count_upto(pos as int, passing),
        decreases len - pos,
    {
        if check_sample(gray.sample(axis, line, pos), test) {
            n = n + 1;
        }
        pos = pos + 1;
    }
    n
}

/// Counts the edges of a line.
pub fn count_edges(gray: &GrayscaleView, axis: Axis, line: u32, delta: u8) -> (n: u32)
    requires
        gray.wf(),
        line < gray@.extent(axis),
    ensures
        n == edge_count(gray@, axis, line as int, delta),
{
    let len = gray.line_len(axis);
    let ghost edge = edge_at(gray@, axis, line as int, delta);
    let mut n: u32 = 0;
    let mut pos: u32 = 0;
    if len == 0 {
        return 0;
    }
    while pos < len - 1
        invariant
            gray.wf(),
            line < gray@.extent(axis),
            len == gray@.line_len(axis),
            len > 0,
            edge == edge_at(gray@, axis, line as int, delta),
            pos <= len - 1,
            n <= pos,
            n == count_upto(pos as int, edge),
        decreases len - pos,
    {
        let here = gray.sample(axis, line, pos);
        let next = gray.sample(axis, line, pos + 1);
        if abs_diff(here, next) > delta {
            n = n + 1;
        }
        pos = pos + 1;
    }
    n
}

/// Decides whether more than `percent` hundredths of the samples of a line
/// pass a test.
pub fn line_is_mostly(
    gray: &GrayscaleView,
    axis: Axis,
    line: u32,
    test: &SampleTest,
    percent: u32,
) -> (holds: bool)
    requires
        gray.wf(),
        line < gray@.extent(axis),
    ensures
        holds == mostly(gray@, axis, line as int, *test, percent),
{
    let passing = count_passing(gray, axis, line, test);
    exceeds_percent_of(passing as u64, gray.line_len(axis) as u64, percent)
}

/// Decides whether a line passes a test.
pub fn test_line(gray: &GrayscaleView, axis: Axis, line: u32, test: &LineTest) -> (passes: bool)
    requires
        gray.wf(),
        line < gray@.extent(axis),
    ensures
        passes == line_passes(gray@, axis, line as int, *test),
{
    match test {
        LineTest::Separator(t) => {
            if line_is_mostly(
                gray,
                axis,
                line,
                &SampleTest::Below { bound: t.darkness },
                t.dark_percent,
            ) {
                true
            } else {
                let edges = count_edges(gray, axis, line, t.edge_delta);
                exceeds_percent_of(edges as u64, gray.line_len(axis) as u64, t.edge_percent)
            }
        },
        LineTest::Mostly { test, percent } => line_is_mostly(gray, axis, line, test, *percent),
    }
}

/// Finds the first line from `from` on that passes a test.
pub fn find_first_line(gray: &GrayscaleView, axis: Axis, from: u32, test: &LineTest) -> (found:
    Option<u32>)
    requires
        gray.wf(),
    ensures
        as_line(found) == first_passing_line(gray@, axis, from as int, *test),
{
    let extent = gray.extent(axis);
    let ghost marks = line_marks(gray@, axis, *test);
    let mut line = from;
    while line < extent
        invariant
            gray.wf(),
            extent == gray@.extent(axis),
            marks == line_marks(gray@, axis, *test),
            from <= line,
            first_marked(from as int, extent as int, marks) == first_marked(
                line as int,
                extent as int,
                marks,
            ),
        decreases extent - line,
    {
        if test_line(gray, axis, line, test) {
            return Some(line);
        }
        line = line + 1;
    }
    None
}

} // verus!

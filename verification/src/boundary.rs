//! Boundary detection: the columns and rows of an image that separate its
//! sprites.
//!
//! A line is a separator when it is mostly dark, which catches transparent
//! gutters, or when its luma changes sharply along much of its length, which
//! catches sprites drawn against different solid backgrounds. The boundaries
//! of an axis are its two ends and the separators between them.

use vstd::prelude::*;
use crate::config::{DetectionThresholds, SpritesheetCutter};
use crate::grid::{Axis, LumaGrid};
use crate::raster::GrayscaleView;
use crate::scan::{line_marks, test_line, LineTest};

verus! {

/// A boundary list of an axis of the given extent: it is not empty, starts at
/// 0, ends at the extent, and increases strictly, so that no coordinate
/// occurs twice.
pub open spec fn is_boundary_list(b: Seq<u32>, extent: u32) -> bool {
    &&& b.len() > 0
    &&& b[0] == 0
    &&& b[b.len() - 1] == extent
    &&& forall|i: int, j: int| 0 <= i < j < b.len() ==> b[i] < b[j]
}

/// Whether a list of coordinates never decreases.
pub open spec fn nondecreasing(b: Seq<u32>) -> bool {
    forall|i: int, j: int| 0 <= i <= j < b.len() ==> b[i] <= b[j]
}

/// Whether a list of coordinates never decreases and stays within an axis of
/// the given extent.
pub open spec fn within_extent(b: Seq<u32>, extent: nat) -> bool {
    &&& nondecreasing(b)
    &&& forall|i: int| 0 <= i < b.len() ==> #[trigger] b[i] <= extent
}

/// The marked coordinates `c` with `1 <= c < n`, in increasing order.
pub open spec fn marked_below(n: int, marked: spec_fn(int) -> bool) -> Seq<u32>
    decreases n,
{
    if n <= 1 {
        Seq::empty()
    } else if marked(n - 1) {
        marked_below(n - 1, marked).push((n - 1) as u32)
    } else {
        marked_below(n - 1, marked)
    }
}

/// The boundaries of an axis: 0, then the marked coordinates among
/// `1 ..= extent - 2` in increasing order, then the extent. The last
/// coordinate before the extent is never a boundary.
pub open spec fn boundary_list(extent: u32, marked: spec_fn(int) -> bool) -> Seq<u32> {
    if extent == 0 {
        seq![0u32]
    } else {
        (seq![0u32] + marked_below(extent - 1, marked)).push(extent)
    }
}

/// The boundaries along `axis` of the lines that pass `test`.
pub open spec fn tested_boundaries(grid: LumaGrid, axis: Axis, test: LineTest) -> Seq<u32> {
    boundary_list(grid.extent(axis) as u32, line_marks(grid, axis, test))
}

/// The boundaries that detection finds along `axis`: those of the separator
/// lines.
pub open spec fn detected_boundaries(grid: LumaGrid, axis: Axis, t: DetectionThresholds) -> Seq<
    u32,
> {
    tested_boundaries(grid, axis, LineTest::Separator(t))
}

/// What is left of the first `n` boundaries of `b` after merging: the first
/// one stays, and each later one stays if it lies at least `min` after the
/// last one that stayed, or if it is the end of the axis.
pub open spec fn merged_prefix(b: Seq<u32>, n: int, min: u32, extent: u32) -> Seq<u32>
    decreases n,
{
    if n <= 0 {
        Seq::empty()
    } else if n == 1 {
        seq![b[0]]
    } else {
        let kept = merged_prefix(b, n - 1, min, extent);
        if b[n - 1] - kept.last() >= min || b[n - 1] == extent {
            kept.push(b[n - 1])
        } else {
            kept
        }
    }
}

/// The boundaries of `b` with those dropped that lie closer than `min` behind
/// the one kept before them, the end of the axis excepted.
pub open spec fn merge_close(b: Seq<u32>, min: u32, extent: u32) -> Seq<u32> {
    merged_prefix(b, b.len() as int, min, extent)
}

/// The marked coordinates below `n` lie in `1 .. n`, increase strictly, and
/// are exactly the coordinates of that range that are marked.
pub proof fn lemma_marked_below(n: int, marked: spec_fn(int) -> bool)
    requires
        n <= u32::MAX + 1,
    ensures
        forall|i: int|
            0 <= i < marked_below(n, marked).len() ==> 1 <= #[trigger] marked_below(n, marked)[i]
                < n,
        forall|i: int, j: int|
            0 <= i < j < marked_below(n, marked).len() ==> marked_below(n, marked)[i]
                < marked_below(n, marked)[j],
        forall|c: u32|
            marked_below(n, marked).contains(c) <==> (1 <= c < n && marked(c as int)),
    decreases n,
{
    let s = marked_below(n, marked);
    if n > 1 {
        let rest = marked_below(n - 1, marked);
        lemma_marked_below(n - 1, marked);
        assert forall|c: u32| s.contains(c) <==> (1 <= c < n && marked(c as int)) by {
            if marked(n - 1) {
                let last = (n - 1) as u32;
                assert(s == rest.push(last));
                if s.contains(c) {
                    let i = choose|i: int| 0 <= i < s.len() && s[i] == c;
                    if i < rest.len() {
                        assert(rest[i] == c);
                        assert(rest.contains(c));
                    }
                }
                if 1 <= c < n && marked(c as int) {
                    if c == last {
                        assert(s[rest.len() as int] == c);
                    } else {
                        assert(rest.contains(c));
                        let i = choose|i: int| 0 <= i < rest.len() && rest[i] == c;
                        assert(s[i] == c);
                    }
                }
            } else {
                assert(rest.contains(c) <==> (1 <= c < n - 1 && marked(c as int)));
            }
        }
    } else {
        assert forall|c: u32| s.contains(c) <==> (1 <= c < n && marked(c as int)) by {
            if s.contains(c) {
                let i = choose|i: int| 0 <= i < s.len() && s[i] == c;
            }
        }
    }
}

/// The boundaries of an axis form a boundary list, and a coordinate is among
/// them exactly when it is 0, the extent, or a marked coordinate strictly
/// between 0 and the last coordinate of the axis.
pub proof fn lemma_boundary_list(extent: u32, marked: spec_fn(int) -> bool)
    ensures
        is_boundary_list(boundary_list(extent, marked), extent),
        forall|c: u32|
            boundary_list(extent, marked).contains(c) <==> (c == 0 || c == extent || (1 <= c
                < extent - 1 && marked(c as int))),
{
    let b = boundary_list(extent, marked);
    if extent == 0 {
        assert(b[0] == 0);
        assert forall|c: u32| b.contains(c) <==> (c == 0 || c == extent || (1 <= c < extent - 1
            && marked(c as int))) by {
            if b.contains(c) {
                let i = choose|i: int| 0 <= i < b.len() && b[i] == c;
            }
        }
    } else {
        let inner = marked_below(extent - 1, marked);
        lemma_marked_below(extent - 1, marked);
        assert(b.len() == inner.len() + 2);
        assert(b[0] == 0);
        assert(b[b.len() - 1] == extent);
        assert forall|i: int| 1 <= i < b.len() - 1 implies b[i] == inner[i - 1] by {}
        assert forall|i: int, j: int| 0 <= i < j < b.len() implies b[i] < b[j] by {
            if i > 0 {
                assert(b[i] == inner[i - 1]);
            }
            if j < b.len() - 1 {
                assert(b[j] == inner[j - 1]);
            }
        }
        assert forall|c: u32| b.contains(c) <==> (c == 0 || c == extent || (1 <= c < extent - 1
            && marked(c as int))) by {
            if b.contains(c) {
                let i = choose|i: int| 0 <= i < b.len() && b[i] == c;
                if 1 <= i < b.len() - 1 {
                    assert(inner[i - 1] == c);
                    assert(inner.contains(c));
                }
            }
            if 1 <= c < extent - 1 && marked(c as int) {
                assert(inner.contains(c));
                let i = choose|i: int| 0 <= i < inner.len() && inner[i] == c;
                assert(b[i + 1] == c);
            }
        }
    }
}

/// Finds the boundaries along one axis of a luma view: the coordinates 0 and
/// the extent, and between them the lines among `1 ..= extent - 2` that pass
/// `test`.
pub fn find_boundaries(gray: &GrayscaleView, axis: Axis, test: &LineTest) -> (bounds: Vec<u32>)
    requires
        gray.wf(),
    ensures
        bounds@ == tested_boundaries(gray@, axis, *test),
        is_boundary_list(bounds@, gray@.extent(axis) as u32),
{
    let extent = gray.extent(axis);
    let ghost marks = line_marks(gray@, axis, *test);
    let mut bounds: Vec<u32> = Vec::new();
    bounds.push(0);
    let last: u32 = if extent > 0 {
        extent - 1
    } else {
        0
    };
    let mut line: u32 = 1;
    assert(bounds@ =~= seq![0u32] + marked_below(1, marks));
    while line < last
        invariant
            gray.wf(),
            extent == gray@.extent(axis),
            marks == line_marks(gray@, axis, *test),
            last == if extent > 0 {
                extent - 1
            } else {
                0
            },
            1 <= line,
            line <= last || line == 1,
            bounds@ == seq![0u32] + marked_below(line as int, marks),
        decreases last - line,
    {
        if test_line(gray, axis, line, test) {
            bounds.push(line);
        }
        assert(bounds@ =~= seq![0u32] + marked_below(line + 1, marks));
        line = line + 1;
    }
    if extent > 0 {
        assert(marked_below(line as int, marks) == marked_below(extent - 1, marks));
        bounds.push(extent);
    }
    proof {
        lemma_boundary_list(extent, marks);
    }
    bounds
}

/// A boundary list holds no coordinate twice.
pub proof fn lemma_boundary_list_no_duplicates(b: Seq<u32>, extent: u32)
    requires
        is_boundary_list(b, extent),
    ensures
        b.no_duplicates(),
{
}

/// A boundary list never decreases and stays within its axis.
pub proof fn lemma_boundary_list_within(b: Seq<u32>, extent: u32)
    requires
        is_boundary_list(b, extent),
    ensures
        within_extent(b, extent as nat),
{
    assert forall|i: int| 0 <= i < b.len() implies #[trigger] b[i] <= extent by {
        if i < b.len() - 1 {
            assert(b[i] < b[b.len() - 1]);
        }
    }
}

/// Whether each boundary of a list but the first lies at least `min` behind
/// the one before it, or is the end of the axis.
pub open spec fn spaced(b: Seq<u32>, min: u32, extent: u32) -> bool {
    forall|i: int|
        0 <= i < b.len() - 1 ==> (#[trigger] b[i + 1] - b[i] >= min || b[i + 1] == extent)
}

/// What merging leaves of the first `n` boundaries of a boundary list starts
/// with the first boundary, increases strictly, consists of boundaries of the
/// list, ends at or before boundary `n - 1`, and ends with the extent when
/// boundary `n - 1` is the extent.
pub proof fn lemma_merged_prefix(b: Seq<u32>, n: int, min: u32, extent: u32)
    requires
        is_boundary_list(b, extent),
        1 <= n <= b.len(),
    ensures
        merged_prefix(b, n, min, extent).len() >= 1,
        merged_prefix(b, n, min, extent)[0] == 0,
        merged_prefix(b, n, min, extent).last() <= b[n - 1],
        b[n - 1] == extent ==> merged_prefix(b, n, min, extent).last() == extent,
        forall|i: int, j: int|
            0 <= i < j < merged_prefix(b, n, min, extent).len() ==> merged_prefix(
                b,
                n,
                min,
                extent,
            )[i] < merged_prefix(b, n, min, extent)[j],
        forall|i: int|
            0 <= i < merged_prefix(b, n, min, extent).len() ==> b.contains(
                #[trigger] merged_prefix(b, n, min, extent)[i],
            ),
        spaced(merged_prefix(b, n, min, extent), min, extent),
    decreases n,
{
    let m = merged_prefix(b, n, min, extent);
    if n == 1 {
        assert(b.contains(b[0]));
    } else {
        let kept = merged_prefix(b, n - 1, min, extent);
        lemma_merged_prefix(b, n - 1, min, extent);
        assert(b[n - 2] < b[n - 1]);
        assert(b.contains(b[n - 1]));
        if b[n - 1] - kept.last() >= min || b[n - 1] == extent {
            assert(m == kept.push(b[n - 1]));
            assert forall|i: int, j: int| 0 <= i < j < m.len() implies m[i] < m[j] by {
                if j < kept.len() {
                    assert(kept[i] < kept[j]);
                } else if i < kept.len() - 1 {
                    assert(kept[i] < kept[kept.len() - 1]);
                }
            }
            assert forall|i: int| 0 <= i < m.len() implies b.contains(#[trigger] m[i]) by {
                if i < kept.len() {
                    assert(m[i] == kept[i]);
                }
            }
            assert forall|i: int| 0 <= i < m.len() - 1 implies (#[trigger] m[i + 1] - m[i] >= min
                || m[i + 1] == extent) by {
                if i < kept.len() - 1 {
                    assert(m[i + 1] == kept[i + 1]);
                    assert(m[i] == kept[i]);
                }
            }
        } else {
            assert(m == kept);
        }
    }
}

/// Merging a boundary list gives a boundary list of the same axis, made of
/// boundaries of the list, of which each but the first lies at least `min`
/// behind the one before it or is the end of the axis.
pub proof fn lemma_merge_close(b: Seq<u32>, min: u32, extent: u32)
    requires
        is_boundary_list(b, extent),
    ensures
        is_boundary_list(merge_close(b, min, extent), extent),
        spaced(merge_close(b, min, extent), min, extent),
        forall|i: int|
            0 <= i < merge_close(b, min, extent).len() ==> b.contains(
                #[trigger] merge_close(b, min, extent)[i],
            ),
{
    lemma_merged_prefix(b, b.len() as int, min, extent);
}

/// Drops from a boundary list the boundaries that lie closer than `min`
/// behind the one kept before them. The first boundary and the end of the
/// axis always stay.
pub fn merge_close_boundaries(bounds: &Vec<u32>, min: u32, extent: u32) -> (merged: Vec<u32>)
    requires
        is_boundary_list(bounds@, extent),
    ensures
        merged@ == merge_close(bounds@, min, extent),
        is_boundary_list(merged@, extent),
{
    let mut merged: Vec<u32> = Vec::new();
    let first = bounds[0];
    merged.push(first);
    let mut last_kept = first;
    let mut i: usize = 1;
    assert(merged@ =~= merged_prefix(bounds@, 1, min, extent));
    while i < bounds.len()
        invariant
            is_boundary_list(bounds@, extent),
            1 <= i <= bounds@.len(),
            merged@ == merged_prefix(bounds@, i as int, min, extent),
            merged@.len() >= 1,
            last_kept == merged@.last(),
        decreases bounds@.len() - i,
    {
        let boundary = bounds[i];
        proof {
            lemma_merged_prefix(bounds@, i as int, min, extent);
            assert(bounds@[i - 1] < bounds@[i as int]);
        }
        if boundary - last_kept >= min || boundary == extent {
            merged.push(boundary);
            last_kept = boundary;
        }
        i = i + 1;
    }
    proof {
        lemma_merge_close(bounds@, min, extent);
    }
    merged
}

impl SpritesheetCutter {
    /// Finds the vertical boundaries of an image, the columns that separate
    /// its sprites: the x coordinates 0 and `width`, and between them every
    /// separator column among `1 ..= width - 2`, in increasing order.
    pub fn find_vertical_boundaries(&self, gray: &GrayscaleView) -> (bounds: Vec<u32>)
        requires
            gray.wf(),
        ensures
            bounds@ == detected_boundaries(gray@, Axis::Columns, self.config.thresholds),
            is_boundary_list(bounds@, gray.width),
    {
        find_boundaries(gray, Axis::Columns, &LineTest::Separator(self.config.thresholds))
    }

    /// Finds the horizontal boundaries of an image, the rows that separate
    /// its sprites: the y coordinates 0 and `height`, and between them every
    /// separator row among `1 ..= height - 2`, in increasing order.
    pub fn find_horizontal_boundaries(&self, gray: &GrayscaleView) -> (bounds: Vec<u32>)
        requires
            gray.wf(),
        ensures
            bounds@ == detected_boundaries(gray@, Axis::Rows, self.config.thresholds),
            is_boundary_list(bounds@, gray.height),
    {
        find_boundaries(gray, Axis::Rows, &LineTest::Separator(self.config.thresholds))
    }
}

} // verus!

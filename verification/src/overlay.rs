//! Which line segments of a track are drawn over the mosaic, and how a line is widened.

use crate::llpoint::LLPoint;
use vstd::prelude::*;

verus! {

/// Whether the segment from point `i` to the point after it is drawn: both are there
/// and both have a position. A break on either side suppresses the segment, so that
/// two tracks are never joined.
pub open spec fn is_drawn(points: Seq<LLPoint>, i: int) -> bool {
    &&& 0 <= i
    &&& i + 1 < points.len()
    &&& points[i]@.point is Some
    &&& points[i + 1]@.point is Some
}

/// `starts` lists, in rising order and each once, exactly the indices at which a drawn
/// segment begins.
pub open spec fn lists_segments(starts: Seq<usize>, points: Seq<LLPoint>) -> bool {
    &&& forall|k: int| 0 <= k < starts.len() ==> is_drawn(points, #[trigger] starts[k] as int)
    &&& forall|j: int, k: int| 0 <= j < k < starts.len() ==> starts[j] < starts[k]
    &&& forall|i: int|
        #[trigger] is_drawn(points, i) ==> exists|k: int|
            0 <= k < starts.len() && #[trigger] starts[k] == i
}

/// The indices at which the segments to draw begin, in the order of the track. The
/// segment that begins at index `i` joins point `i` to point `i + 1`.
pub fn segment_starts(all: &[LLPoint]) -> (starts: Vec<usize>)
    ensures
        lists_segments(starts@, all@),
{
    let mut starts: Vec<usize> = Vec::new();
    if all.len() < 2 {
        return starts;
    }
    let n: usize = all.len();
    let mut i: usize = 0;
    while i + 1 < n
        invariant
            n == all@.len(),
            2 <= n,
            i + 1 <= n,
            forall|k: int| 0 <= k < starts@.len() ==> is_drawn(all@, #[trigger] starts@[k] as int),
            forall|k: int| 0 <= k < starts@.len() ==> (#[trigger] starts@[k]) < i,
            forall|j: int, k: int| 0 <= j < k < starts@.len() ==> starts@[j] < starts@[k],
            forall|j: int|
                j < i && #[trigger] is_drawn(all@, j) ==> exists|k: int|
                    0 <= k < starts@.len() && #[trigger] starts@[k] == j,
        decreases all@.len() - i,
    {
        let here = all[i].point();
        let next = all[i + 1].point();
        if here.is_some() && next.is_some() {
            let ghost before = starts@;
            starts.push(i);
            proof {
                assert forall|j: int| j < i + 1 && #[trigger] is_drawn(all@, j) implies exists|
                    k: int,
                | 0 <= k < starts@.len() && #[trigger] starts@[k] == j by {
                    if j < i {
                        let k = choose|k: int| 0 <= k < before.len() && #[trigger] before[k] == j;
                        assert(starts@[k] == j);
                    } else {
                        assert(starts@[before.len() as int] == j);
                    }
                }
            }
        }
        i = i + 1;
    }
    proof {
        assert forall|j: int| #[trigger] is_drawn(all@, j) implies exists|k: int|
            0 <= k < starts@.len() && #[trigger] starts@[k] == j by {
            assert(j < i);
        }
    }
    starts
}

/// No segment is drawn to or from a point without a position: wherever a break stands,
/// the segment that ends at it and the segment that begins at it are both left out.
pub proof fn lemma_break_parts_tracks(starts: Seq<usize>, points: Seq<LLPoint>, i: int)
    requires
        lists_segments(starts, points),
        0 <= i < points.len(),
        points[i]@.point is None,
    ensures
        forall|k: int| 0 <= k < starts.len() ==> #[trigger] starts[k] != i && starts[k] + 1 != i,
{
    assert forall|k: int| 0 <= k < starts.len() implies #[trigger] starts[k] != i && starts[k] + 1
        != i by {
        assert(is_drawn(points, starts[k] as int));
    }
}

/// Half of the line width, rounded down: how far the copies of a segment reach to
/// either side of it.
pub open spec fn spec_half_width(linewidth: u8) -> int {
    linewidth as int / 2
}

/// Number of copies of a segment along one axis.
pub open spec fn spec_copies(linewidth: u8) -> int {
    2 * spec_half_width(linewidth)
}

/// The offset, in pixels along both axes, of copy number `k` of a segment. The copies
/// fill a square row by row, from `-half` up to but not including `half` on each axis.
pub open spec fn spec_offset(linewidth: u8, k: int) -> (i32, i32) {
    (
        (k / spec_copies(linewidth) - spec_half_width(linewidth)) as i32,
        (k % spec_copies(linewidth) - spec_half_width(linewidth)) as i32,
    )
}

/// The offsets at which a segment is drawn again and again to give the line its width.
pub fn line_offsets(linewidth: u8) -> (offsets: Vec<(i32, i32)>)
    ensures
        offsets@.len() == spec_copies(linewidth) * spec_copies(linewidth),
        forall|k: int| 0 <= k < offsets@.len() ==> #[trigger] offsets@[k] == spec_offset(linewidth, k),
        forall|k: int|
            0 <= k < offsets@.len() ==> -spec_half_width(linewidth) <= (#[trigger] offsets@[k]).0
                < spec_half_width(linewidth) && -spec_half_width(linewidth) <= offsets@[k].1
                < spec_half_width(linewidth),
{
    let half: i32 = (linewidth / 2) as i32;
    let mut offsets: Vec<(i32, i32)> = Vec::new();
    let mut lw: i32 = -half;
    proof {
        assert((lw + half) * (2 * half) == 0) by (nonlinear_arith)
            requires
                lw + half == 0,
        ;
    }
    while lw < half
        invariant
            half == spec_half_width(linewidth),
            0 <= half <= 127,
            -half <= lw <= half || half == 0,
            half == 0 ==> lw == 0,
            offsets@.len() == (lw + half) * (2 * half),
            forall|k: int|
                0 <= k < offsets@.len() ==> #[trigger] offsets@[k] == spec_offset(linewidth, k),
        decreases half - lw,
    {
        let mut lh: i32 = -half;
        while lh < half
            invariant
                half == spec_half_width(linewidth),
                0 < half <= 127,
                -half <= lw < half,
                -half <= lh <= half,
                offsets@.len() == (lw + half) * (2 * half) + (lh + half),
                forall|k: int|
                    0 <= k < offsets@.len() ==> #[trigger] offsets@[k] == spec_offset(
                        linewidth,
                        k,
                    ),
            decreases half - lh,
        {
            proof {
                let n = 2 * half as int;
                let row = lw + half as int;
                let col = lh + half as int;
                let k = offsets@.len() as int;
                assert(k / n == row && k % n == col) by (nonlinear_arith)
                    requires
                        k == row * n + col,
                        0 <= col < n,
                        0 <= row,
                ;
            }
            offsets.push((lw, lh));
            lh = lh + 1;
        }
        proof {
            let n = 2 * half as int;
            let row = lw + half as int;
            assert(row * n + n == (row + 1) * n) by (nonlinear_arith);
        }
        lw = lw + 1;
    }
    proof {
        let n = 2 * half as int;
        if half == 0 {
            assert(offsets@.len() == 0);
        } else {
            assert(lw == half);
        }
        assert((lw + half) * (2 * half) == n * n) by (nonlinear_arith)
            requires
                n == 2 * half,
                lw == half,
        ;
        assert forall|k: int| 0 <= k < offsets@.len() implies -spec_half_width(linewidth) <= (
        #[trigger] offsets@[k]).0 < spec_half_width(linewidth) && -spec_half_width(linewidth)
            <= offsets@[k].1 < spec_half_width(linewidth) by {
            assert(offsets@[k] == spec_offset(linewidth, k));
            assert(0 <= k / n < n && 0 <= k % n < n) by (nonlinear_arith)
                requires
                    0 <= k < n * n,
                    n > 0,
            ;
        }
    }
    offsets
}

} // verus!

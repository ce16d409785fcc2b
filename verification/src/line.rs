//! The pixels of a straight line between two integer points.

use vstd::prelude::*;
use vstd::arithmetic::div_mod::{
    lemma_fundamental_div_mod, lemma_fundamental_div_mod_converse, lemma_mod_bound,
};
use crate::color::{composite, composite_times, Color};
use crate::surface::{hits, lemma_hits_contains, lemma_hits_of_distinct, lemma_paint_pixel, Surface};

verus! {

/// The distance between two numbers.
pub open spec fn gap(a: int, b: int) -> int {
    if a >= b {
        a - b
    } else {
        b - a
    }
}

/// Whether the line from `p0` to `p1` rises faster than it runs. A steep line
/// is walked along `y`, with one pixel in each row; any other along `x`, with
/// one pixel in each column.
pub open spec fn line_steep(p0: (int, int), p1: (int, int)) -> bool {
    gap(p1.1, p0.1) > gap(p1.0, p0.0)
}

/// A point as (coordinate along the walk, coordinate across it).
pub open spec fn along(steep: bool, p: (int, int)) -> (int, int) {
    if steep {
        (p.1, p.0)
    } else {
        p
    }
}

/// The end of the line at which the walk begins: the one with the smaller
/// coordinate along the walk, and `p0` where both ends have the same. It is
/// given as (along, across).
pub open spec fn line_start(p0: (int, int), p1: (int, int)) -> (int, int) {
    let s = line_steep(p0, p1);
    if along(s, p0).0 > along(s, p1).0 {
        along(s, p1)
    } else {
        along(s, p0)
    }
}

/// The end of the line at which the walk stops, as (along, across).
pub open spec fn line_stop(p0: (int, int), p1: (int, int)) -> (int, int) {
    let s = line_steep(p0, p1);
    if along(s, p0).0 > along(s, p1).0 {
        along(s, p0)
    } else {
        along(s, p1)
    }
}

/// The number of steps of the walk: the larger of the two distances between
/// the ends.
pub open spec fn line_run(p0: (int, int), p1: (int, int)) -> int {
    line_stop(p0, p1).0 - line_start(p0, p1).0
}

/// The distance that the walk covers across its direction.
pub open spec fn line_rise(p0: (int, int), p1: (int, int)) -> int {
    gap(line_stop(p0, p1).1, line_start(p0, p1).1)
}

/// How far the line has moved across its direction after `i` steps along it:
/// `i * rise / run` rounded to the nearest whole number, and rounded down
/// where it lies exactly between two.
pub open spec fn line_drift(p0: (int, int), p1: (int, int), i: int) -> int {
    let run = line_run(p0, p1);
    if run == 0 {
        0
    } else {
        (2 * (i * line_rise(p0, p1)) + run - 1) / (2 * run)
    }
}

/// The `i`-th pixel of the line from `p0` to `p1`, counted from 0 at
/// `line_start`.
pub open spec fn line_point(p0: (int, int), p1: (int, int), i: int) -> (int, int) {
    let start = line_start(p0, p1);
    let drift = line_drift(p0, p1, i);
    let across = if start.1 < line_stop(p0, p1).1 {
        start.1 + drift
    } else {
        start.1 - drift
    };
    along(line_steep(p0, p1), (start.0 + i, across))
}

/// The pixels of the line from `p0` to `p1`, both ends included, in the order
/// in which they are drawn.
pub open spec fn line_points(p0: (int, int), p1: (int, int)) -> Seq<(int, int)> {
    Seq::new((line_run(p0, p1) + 1) as nat, |i: int| line_point(p0, p1, i))
}

/// The run of a line is never negative, and its rise is never more than its
/// run.
pub proof fn lemma_line_shape(p0: (int, int), p1: (int, int))
    ensures
        0 <= line_rise(p0, p1) <= line_run(p0, p1),
        line_run(p0, p1) == if gap(p1.1, p0.1) > gap(p1.0, p0.0) {
            gap(p1.1, p0.1)
        } else {
            gap(p1.0, p0.0)
        },
        line_points(p0, p1).len() == line_run(p0, p1) + 1,
{
}

/// The drift is the one whole number `k` for which the error term
/// `run - 2 * i * rise + 2 * k * run` lies from 0 up to, but not at, twice the
/// run.
pub proof fn lemma_drift_by_error(p0: (int, int), p1: (int, int), i: int, k: int, e: int)
    requires
        line_run(p0, p1) > 0,
        e == line_run(p0, p1) - 2 * (i * line_rise(p0, p1)) + 2 * (k * line_run(p0, p1)),
        0 <= e < 2 * line_run(p0, p1),
    ensures
        line_drift(p0, p1, i) == k,
{
    let run = line_run(p0, p1);
    let rise = line_rise(p0, p1);
    let n = 2 * (i * rise) + run - 1;
    let r = 2 * run - 1 - e;
    assert(k * (2 * run) == 2 * (k * run)) by (nonlinear_arith);
    assert(n == k * (2 * run) + r);
    lemma_fundamental_div_mod_converse(n, 2 * run, k, r);
}

/// A line begins at one of its ends and stops at the other.
pub proof fn lemma_line_ends(p0: (int, int), p1: (int, int))
    ensures
        line_points(p0, p1).len() >= 1,
        line_points(p0, p1).first() == along(line_steep(p0, p1), line_start(p0, p1)),
        line_points(p0, p1).last() == along(line_steep(p0, p1), line_stop(p0, p1)),
        line_points(p0, p1).contains(p0),
        line_points(p0, p1).contains(p1),
{
    let run = line_run(p0, p1);
    let rise = line_rise(p0, p1);
    let pts = line_points(p0, p1);
    lemma_line_shape(p0, p1);
    assert(0 * rise == 0) by (nonlinear_arith);
    if run > 0 {
        lemma_fundamental_div_mod_converse(run - 1, 2 * run, 0, run - 1);
        assert(line_drift(p0, p1, 0) == 0);
        assert(run - 2 * (run * rise) + 2 * (rise * run) == run) by (nonlinear_arith);
        lemma_drift_by_error(p0, p1, run, rise, run);
        assert(line_drift(p0, p1, run) == rise);
    }
    assert(pts[0] == along(line_steep(p0, p1), line_start(p0, p1)));
    assert(pts[run] == along(line_steep(p0, p1), line_stop(p0, p1)));
    let s = line_steep(p0, p1);
    if along(s, p0).0 > along(s, p1).0 {
        assert(pts[0] == p1);
        assert(pts[run] == p0);
    } else {
        assert(pts[0] == p0);
        assert(pts[run] == p1);
    }
}

/// A line is the same pixels in the same order whichever end is named first.
pub proof fn lemma_line_directionless(p0: (int, int), p1: (int, int))
    ensures
        line_points(p0, p1) == line_points(p1, p0),
{
    let s = line_steep(p0, p1);
    assert(line_steep(p1, p0) == s);
    if along(s, p0).0 == along(s, p1).0 {
        assert(p0 == p1);
    }
    assert(line_start(p0, p1) == line_start(p1, p0));
    assert(line_stop(p0, p1) == line_stop(p1, p0));
    assert forall|i: int| line_point(p0, p1, i) == line_point(p1, p0, i) by {}
    assert(line_points(p0, p1) =~= line_points(p1, p0));
}

/// A horizontal line is the row of pixels between its ends, with no drift up
/// or down; a vertical one is the column between them.
pub proof fn lemma_line_straight(p0: (int, int), p1: (int, int), i: int)
    requires
        0 <= i <= line_run(p0, p1),
    ensures
        p0.1 == p1.1 ==> line_point(p0, p1, i) == (
            (if p0.0 <= p1.0 {
                p0.0
            } else {
                p1.0
            }) + i,
            p0.1,
        ),
        p0.0 == p1.0 ==> line_point(p0, p1, i) == (
            p0.0,
            (if p0.1 <= p1.1 {
                p0.1
            } else {
                p1.1
            }) + i,
        ),
{
    let run = line_run(p0, p1);
    if line_rise(p0, p1) == 0 && run > 0 {
        assert(i * 0 == 0) by (nonlinear_arith);
        lemma_fundamental_div_mod_converse(run - 1, 2 * run, 0, run - 1);
    }
}

/// No pixel occurs twice in a line: the `i`-th pixel lies `i` steps from the
/// start along the walk.
pub proof fn lemma_line_points_distinct(p0: (int, int), p1: (int, int), i: int, j: int)
    requires
        i != j,
    ensures
        line_point(p0, p1, i) != line_point(p0, p1, j),
{
}

/// A line paints each of its pixels once: no pixel occurs twice among its
/// points.
pub proof fn lemma_line_paints_once(p0: (int, int), p1: (int, int), x: int, y: int)
    ensures
        line_points(p0, p1).no_duplicates(),
        hits(line_points(p0, p1), x, y) <= 1,
{
    let pts = line_points(p0, p1);
    assert forall|i: int, j: int| 0 <= i < pts.len() && 0 <= j < pts.len() && i != j implies pts[i]
        != pts[j] by {
        lemma_line_points_distinct(p0, p1, i, j);
    }
    lemma_hits_of_distinct(pts, x, y);
}

/// Each pixel of a line lies within half a pixel of the true line: after `i`
/// steps the drift differs from `i * rise / run` by no more than a half, and
/// by less than a half upwards.
pub proof fn lemma_drift_is_nearest(p0: (int, int), p1: (int, int), i: int)
    requires
        line_run(p0, p1) > 0,
    ensures
        -line_run(p0, p1) <= 2 * (line_drift(p0, p1, i) * line_run(p0, p1)) - 2 * (i * line_rise(
            p0,
            p1,
        )) < line_run(p0, p1),
{
    let run = line_run(p0, p1);
    let n = 2 * (i * line_rise(p0, p1)) + run - 1;
    let k = line_drift(p0, p1, i);
    lemma_fundamental_div_mod(n, 2 * run);
    lemma_mod_bound(n, 2 * run);
    assert((2 * run) * k == 2 * (k * run)) by (nonlinear_arith);
}

/// Seen from either end, the drift of a line never runs past its rise: each
/// pixel lies between the two ends, along the walk and across it.
pub proof fn lemma_line_between_ends(p0: (int, int), p1: (int, int), i: int)
    requires
        0 <= i <= line_run(p0, p1),
    ensures
        0 <= line_drift(p0, p1, i) <= line_rise(p0, p1),
        gap(p0.0, p1.0) == gap(p0.0, line_point(p0, p1, i).0) + gap(line_point(p0, p1, i).0, p1.0),
        gap(p0.1, p1.1) == gap(p0.1, line_point(p0, p1, i).1) + gap(line_point(p0, p1, i).1, p1.1),
{
    let run = line_run(p0, p1);
    let rise = line_rise(p0, p1);
    lemma_line_shape(p0, p1);
    if run > 0 {
        lemma_drift_is_nearest(p0, p1, i);
        let k = line_drift(p0, p1, i);
        assert(0 <= k <= rise) by (nonlinear_arith)
            requires
                -run <= 2 * (k * run) - 2 * (i * rise) < run,
                0 <= i <= run,
                0 <= rise <= run,
                run > 0,
        ;
    }
}

/// What a line does to a pixel of the grid: where the line passes through it,
/// the color is laid over it once; elsewhere nothing changes.
pub proof fn lemma_line_painted(
    s: Surface,
    p0: (int, int),
    p1: (int, int),
    color: Color,
    x: int,
    y: int,
)
    requires
        s.in_bounds(x, y),
    ensures
        s.paint(line_points(p0, p1), color).color_at(x, y) == if line_points(p0, p1).contains(
            (x, y),
        ) {
            composite(s.color_at(x, y), color)
        } else {
            s.color_at(x, y)
        },
{
    let pts = line_points(p0, p1);
    lemma_paint_pixel(s, pts, color, x, y);
    lemma_hits_contains(pts, x, y);
    lemma_line_paints_once(p0, p1, x, y);
    reveal_with_fuel(composite_times, 2);
}

} // verus!

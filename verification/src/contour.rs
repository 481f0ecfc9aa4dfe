//! The area that a contour encloses, and the choice of the largest contour.
//!
//! Areas are compared by their doubles, which are whole numbers for contours of
//! integer points.

use vstd::prelude::*;
use crate::geometry::Point;

verus! {

/// The share of the edge from `p` to `q` in twice the signed area.
pub open spec fn cross(p: Point, q: Point) -> int {
    p.x * q.y - p.y * q.x
}

/// The point before point `k` on the closed contour `c`.
pub open spec fn previous(c: Seq<Point>, k: int) -> Point {
    if k == 0 {
        c[c.len() - 1]
    } else {
        c[k - 1]
    }
}

/// The sum of the shares of the first `n` edges of the closed contour `c`,
/// where edge `k` runs from the point before point `k` to point `k`.
pub open spec fn edge_sum(c: Seq<Point>, n: int) -> int
    decreases n,
{
    if n <= 0 {
        0
    } else {
        edge_sum(c, n - 1) + cross(previous(c, n - 1), c[n - 1])
    }
}

/// Twice the area that the closed contour `c` encloses, whichever way round
/// its points run.
pub open spec fn doubled_area_spec(c: Seq<Point>) -> int {
    if edge_sum(c, c.len() as int) < 0 {
        -edge_sum(c, c.len() as int)
    } else {
        edge_sum(c, c.len() as int)
    }
}

/// Contour `i` encloses the largest area of all, and is the last of those
/// that do.
pub open spec fn is_largest(contours: Seq<Vec<Point>>, i: int) -> bool {
    &&& 0 <= i < contours.len()
    &&& forall|k: int|
        0 <= k < contours.len() ==> doubled_area_spec(#[trigger] contours[k]@) <= doubled_area_spec(
            contours[i]@,
        )
    &&& forall|k: int|
        i < k < contours.len() ==> doubled_area_spec(#[trigger] contours[k]@) < doubled_area_spec(
            contours[i]@,
        )
}

/// The share of an edge is less than `2^63` in size.
pub proof fn lemma_cross_bounds(p: Point, q: Point)
    ensures
        -0x8000_0000_0000_0000 <= cross(p, q) <= 0x8000_0000_0000_0000,
{
    let a = p.x as int;
    let b = q.y as int;
    let c = p.y as int;
    let d = q.x as int;
    assert(-0x4000_0000_0000_0000 <= a * b <= 0x4000_0000_0000_0000) by (nonlinear_arith)
        requires
            -0x8000_0000 <= a <= 0x8000_0000,
            -0x8000_0000 <= b <= 0x8000_0000,
    ;
    assert(-0x4000_0000_0000_0000 <= c * d <= 0x4000_0000_0000_0000) by (nonlinear_arith)
        requires
            -0x8000_0000 <= c <= 0x8000_0000,
            -0x8000_0000 <= d <= 0x8000_0000,
    ;
}

/// The sum of the first `n` shares is at most `n * 2^63` in size.
pub proof fn lemma_edge_sum_bounds(c: Seq<Point>, n: int)
    requires
        0 <= n,
    ensures
        -n * 0x8000_0000_0000_0000 <= edge_sum(c, n) <= n * 0x8000_0000_0000_0000,
    decreases n,
{
    if n > 0 {
        lemma_edge_sum_bounds(c, n - 1);
        lemma_cross_bounds(previous(c, n - 1), c[n - 1]);
    }
}

/// Only one contour can be the last of the largest.
pub proof fn lemma_largest_unique(contours: Seq<Vec<Point>>, i: int, j: int)
    requires
        is_largest(contours, i),
        is_largest(contours, j),
    ensures
        i == j,
{
    let a = doubled_area_spec(contours[i]@);
    let b = doubled_area_spec(contours[j]@);
    assert(a <= b && b <= a);
}

/// Computes twice the area that a closed contour encloses.
pub fn doubled_area(contour: &Vec<Point>) -> (r: u128)
    ensures
        r == doubled_area_spec(contour@),
{
    let len = contour.len();
    let mut sum: i128 = 0;
    let mut k: usize = 0;
    while k < len
        invariant
            len == contour@.len(),
            k <= len,
            sum == edge_sum(contour@, k as int),
        decreases len - k,
    {
        let before = if k == 0 {
            contour[len - 1]
        } else {
            contour[k - 1]
        };
        let here = contour[k];
        proof {
            lemma_cross_bounds(before, here);
            lemma_edge_sum_bounds(contour@, k as int);
            lemma_edge_sum_bounds(contour@, k + 1);
            let a = before.x as int;
            let b = here.y as int;
            let c = before.y as int;
            let d = here.x as int;
            assert(-0x4000_0000_0000_0000 <= a * b <= 0x4000_0000_0000_0000) by (nonlinear_arith)
                requires
                    -0x8000_0000 <= a <= 0x8000_0000,
                    -0x8000_0000 <= b <= 0x8000_0000,
            ;
            assert(-0x4000_0000_0000_0000 <= c * d <= 0x4000_0000_0000_0000) by (nonlinear_arith)
                requires
                    -0x8000_0000 <= c <= 0x8000_0000,
                    -0x8000_0000 <= d <= 0x8000_0000,
            ;
        }
        let rising: i128 = (before.x as i128) * (here.y as i128);
        let falling: i128 = (before.y as i128) * (here.x as i128);
        sum = sum + (rising - falling);
        k += 1;
    }
    proof {
        lemma_edge_sum_bounds(contour@, len as int);
    }
    if sum < 0 {
        (-sum) as u128
    } else {
        sum as u128
    }
}

/// Picks the contour that encloses the largest area: the last one of them
/// where several enclose the same. There is none to pick only where there is
/// no contour.
pub fn largest_contour(contours: &Vec<Vec<Point>>) -> (r: Option<usize>)
    ensures
        r is None <==> contours.len() == 0,
        r matches Some(i) ==> is_largest(contours@, i as int),
{
    if contours.len() == 0 {
        return None;
    }
    let mut best: usize = 0;
    let mut best_area: u128 = doubled_area(&contours[0]);
    let mut k: usize = 1;
    while k < contours.len()
        invariant
            1 <= k <= contours.len(),
            best < k,
            best_area == doubled_area_spec(contours@[best as int]@),
            forall|m: int|
                0 <= m < k ==> doubled_area_spec(#[trigger] contours@[m]@) <= best_area,
            forall|m: int|
                best < m < k ==> doubled_area_spec(#[trigger] contours@[m]@) < best_area,
        decreases contours.len() - k,
    {
        let area = doubled_area(&contours[k]);
        if area >= best_area {
            best = k;
            best_area = area;
        }
        k += 1;
    }
    Some(best)
}

} // verus!

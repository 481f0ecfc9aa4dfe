//! The closest pair of points between two contours.
//!
//! The search is a brute-force scan of every cross pair. It is defined once as
//! a serial scan in contour order ([`rows_best`]), and the work may be cut into
//! contiguous chunks of the first contour that are scanned independently and
//! merged in chunk order. The merge prefers the earlier candidate on a tie, so
//! the outcome does not depend on how the first contour was cut.

use vstd::prelude::*;
use vstd::arithmetic::div_mod::lemma_fundamental_div_mod;
use vstd::arithmetic::div_mod::lemma_mod_bound;
use crate::geometry::Point;
use crate::geometry::dist_sq;
use crate::geometry::lemma_dist_sq_bounds;
use crate::geometry::squared_distance;

verus! {

/// A cross pair, named by the index of its point in each contour, together
/// with the squared distance between the two points.
#[derive(Clone, Copy, Debug, PartialEq, Eq, Structural)]
pub struct Candidate {
    pub row: usize,
    pub col: usize,
    pub dist: u128,
}

/// The candidate that stands for point `i` of `c1` and point `j` of `c2`.
pub open spec fn candidate_at(c1: Seq<Point>, c2: Seq<Point>, i: int, j: int) -> Candidate {
    Candidate { row: i as usize, col: j as usize, dist: dist_sq(c1[i], c2[j]) as u128 }
}

/// The better of two optional candidates: the nearer one, and the first one
/// where both are equally near.
pub open spec fn pick(a: Option<Candidate>, b: Option<Candidate>) -> Option<Candidate> {
    match (a, b) {
        (None, _) => b,
        (Some(_), None) => a,
        (Some(x), Some(y)) => if y.dist < x.dist {
            b
        } else {
            a
        },
    }
}

/// The serial scan of point `i` of `c1` against the first `n` points of `c2`.
pub open spec fn row_best(c1: Seq<Point>, c2: Seq<Point>, i: int, n: int) -> Option<Candidate>
    decreases n,
{
    if n <= 0 {
        None
    } else {
        pick(row_best(c1, c2, i, n - 1), Some(candidate_at(c1, c2, i, n - 1)))
    }
}

/// The serial scan of the points `lo..hi` of `c1`, in order, each against the
/// whole of `c2`.
pub open spec fn rows_best(c1: Seq<Point>, c2: Seq<Point>, lo: int, hi: int) -> Option<Candidate>
    decreases hi - lo,
{
    if hi <= lo {
        None
    } else {
        pick(rows_best(c1, c2, lo, hi - 1), row_best(c1, c2, hi - 1, c2.len() as int))
    }
}

/// Pair `(i, j)` is at least as good as pair `(a, b)`: it is nearer, or equally
/// near and not later in contour order.
pub open spec fn precedes(c1: Seq<Point>, c2: Seq<Point>, i: int, j: int, a: int, b: int) -> bool {
    dist_sq(c1[i], c2[j]) < dist_sq(c1[a], c2[b]) || (dist_sq(c1[i], c2[j]) == dist_sq(
        c1[a],
        c2[b],
    ) && (i < a || (i == a && j <= b)))
}

/// Pair `(i, j)` is the first pair of minimum distance among the points
/// `lo..hi` of `c1` and the first `n` points of `c2`.
pub open spec fn first_min_in(
    c1: Seq<Point>,
    c2: Seq<Point>,
    lo: int,
    hi: int,
    n: int,
    i: int,
    j: int,
) -> bool {
    &&& lo <= i < hi
    &&& 0 <= j < n
    &&& forall|a: int, b: int|
        lo <= a < hi && 0 <= b < n ==> #[trigger] precedes(c1, c2, i, j, a, b)
}

/// What the search reports for two contours: the origin twice where either
/// contour is empty, else the two points of the first pair of minimum distance.
pub open spec fn closest_pair_spec(c1: Seq<Point>, c2: Seq<Point>) -> (Point, Point) {
    match rows_best(c1, c2, 0, c1.len() as int) {
        None => (Point { x: 0, y: 0 }, Point { x: 0, y: 0 }),
        Some(c) => (c1[c.row as int], c2[c.col as int]),
    }
}

/// Merging is associative, so a chain of merges may be regrouped at will.
pub proof fn lemma_pick_associative(
    a: Option<Candidate>,
    b: Option<Candidate>,
    c: Option<Candidate>,
)
    ensures
        pick(pick(a, b), c) == pick(a, pick(b, c)),
{
}

/// The scan of one row finds the first nearest point of `c2[..n]` to `c1[i]`.
pub proof fn lemma_row_best_is_first_min(c1: Seq<Point>, c2: Seq<Point>, i: int, n: int)
    requires
        0 <= i < c1.len() <= usize::MAX,
        0 <= n <= c2.len() <= usize::MAX,
    ensures
        match row_best(c1, c2, i, n) {
            None => n == 0,
            Some(c) => c == candidate_at(c1, c2, i, c.col as int) && first_min_in(
                c1,
                c2,
                i,
                i + 1,
                n,
                i,
                c.col as int,
            ),
        },
    decreases n,
{
    if n > 0 {
        lemma_row_best_is_first_min(c1, c2, i, n - 1);
        lemma_dist_sq_bounds(c1[i], c2[n - 1]);
        match row_best(c1, c2, i, n - 1) {
            None => {
                assert(precedes(c1, c2, i, n - 1, i, n - 1));
            },
            Some(p) => {
                let j = p.col as int;
                lemma_dist_sq_bounds(c1[i], c2[j]);
                let r = row_best(c1, c2, i, n)->0;
                assert forall|a: int, b: int| i <= a < i + 1 && 0 <= b < n implies #[trigger] precedes(
                    c1,
                    c2,
                    i,
                    r.col as int,
                    a,
                    b,
                ) by {
                    if b < n - 1 {
                        assert(precedes(c1, c2, i, j, a, b));
                    }
                }
            },
        }
    }
}

/// The serial scan of the rows `lo..hi` finds the first pair of minimum
/// distance among them, and finds nothing exactly where there is no pair.
pub proof fn lemma_rows_best_is_first_min(c1: Seq<Point>, c2: Seq<Point>, lo: int, hi: int)
    requires
        0 <= lo <= hi <= c1.len() <= usize::MAX,
        c2.len() <= usize::MAX,
    ensures
        match rows_best(c1, c2, lo, hi) {
            None => lo == hi || c2.len() == 0,
            Some(c) => c == candidate_at(c1, c2, c.row as int, c.col as int) && first_min_in(
                c1,
                c2,
                lo,
                hi,
                c2.len() as int,
                c.row as int,
                c.col as int,
            ),
        },
    decreases hi - lo,
{
    if lo < hi {
        let n = c2.len() as int;
        lemma_rows_best_is_first_min(c1, c2, lo, hi - 1);
        lemma_row_best_is_first_min(c1, c2, hi - 1, n);
        let before = rows_best(c1, c2, lo, hi - 1);
        let last = row_best(c1, c2, hi - 1, n);
        match (before, last) {
            (Some(p), Some(q)) => {
                let r = rows_best(c1, c2, lo, hi)->0;
                lemma_dist_sq_bounds(c1[p.row as int], c2[p.col as int]);
                lemma_dist_sq_bounds(c1[q.row as int], c2[q.col as int]);
                assert forall|a: int, b: int| lo <= a < hi && 0 <= b < n implies #[trigger] precedes(
                    c1,
                    c2,
                    r.row as int,
                    r.col as int,
                    a,
                    b,
                ) by {
                    if a < hi - 1 {
                        assert(precedes(c1, c2, p.row as int, p.col as int, a, b));
                    } else {
                        assert(precedes(c1, c2, hi - 1, q.col as int, a, b));
                    }
                }
            },
            (Some(p), None) => {},
            (None, Some(q)) => {
                if lo < hi - 1 {
                    assert(n == 0);
                }
                assert forall|a: int, b: int| lo <= a < hi && 0 <= b < n implies #[trigger] precedes(
                    c1,
                    c2,
                    q.row as int,
                    q.col as int,
                    a,
                    b,
                ) by {
                    assert(precedes(c1, c2, hi - 1, q.col as int, a, b));
                }
            },
            (None, None) => {},
        }
    }
}

/// At most one pair is the first pair of minimum distance.
pub proof fn lemma_first_min_unique(
    c1: Seq<Point>,
    c2: Seq<Point>,
    lo: int,
    hi: int,
    n: int,
    i: int,
    j: int,
    k: int,
    l: int,
)
    requires
        first_min_in(c1, c2, lo, hi, n, i, j),
        first_min_in(c1, c2, lo, hi, n, k, l),
    ensures
        i == k,
        j == l,
{
    assert(precedes(c1, c2, i, j, k, l));
    assert(precedes(c1, c2, k, l, i, j));
}

/// Scanning `lo..mid` and `mid..hi` apart and merging the two outcomes gives
/// what the scan of `lo..hi` gives.
pub proof fn lemma_rows_split(c1: Seq<Point>, c2: Seq<Point>, lo: int, mid: int, hi: int)
    requires
        lo <= mid <= hi,
    ensures
        pick(rows_best(c1, c2, lo, mid), rows_best(c1, c2, mid, hi)) == rows_best(c1, c2, lo, hi),
    decreases hi - mid,
{
    if mid < hi {
        lemma_rows_split(c1, c2, lo, mid, hi - 1);
        lemma_pick_associative(
            rows_best(c1, c2, lo, mid),
            rows_best(c1, c2, mid, hi - 1),
            row_best(c1, c2, hi - 1, c2.len() as int),
        );
    } else {
        assert(rows_best(c1, c2, mid, hi) is None);
    }
}

/// The number of chunks into which a contour of `len` points is cut for
/// `workers` workers: one chunk per worker, but no more chunks than points. A
/// worker count of zero is read as one.
pub open spec fn chunk_count_spec(len: int, workers: int) -> int {
    if len <= 0 {
        0
    } else if workers <= 1 {
        1
    } else if len < workers {
        len
    } else {
        workers
    }
}

/// Where chunk `k` of `count` begins in a contour of `len` points. The chunks
/// differ in length by at most one, the longer ones first.
pub open spec fn chunk_start(len: int, count: int, k: int) -> int {
    k * (len / count) + if k < len % count {
        k
    } else {
        len % count
    }
}

/// The chunks are laid end to end from the first point to the last.
pub proof fn lemma_chunks_cover(len: int, count: int, k: int)
    requires
        0 <= len,
        0 < count,
        0 <= k < count,
    ensures
        chunk_start(len, count, 0) == 0,
        chunk_start(len, count, count) == len,
        0 <= chunk_start(len, count, k) <= chunk_start(len, count, k + 1) <= len,
        count <= len ==> chunk_start(len, count, k) < chunk_start(len, count, k + 1),
{
    let base = len / count;
    let rest = len % count;
    lemma_fundamental_div_mod(len, count);
    lemma_mod_bound(len, count);
    assert(0 <= base) by (nonlinear_arith)
        requires
            len == count * base + rest,
            0 <= rest < count,
            0 <= len,
            0 < count,
    ;
    assert(count <= len ==> 1 <= base) by (nonlinear_arith)
        requires
            len == count * base + rest,
            0 <= rest < count,
            0 < count,
    ;
    assert(0 * base == 0);
    assert((k + 1) * base == k * base + base) by (nonlinear_arith);
    assert(0 <= k * base) by (nonlinear_arith)
        requires
            0 <= k,
            0 <= base,
    ;
    assert((k + 1) * base <= count * base) by (nonlinear_arith)
        requires
            k + 1 <= count,
            0 <= base,
    ;
}

/// The merge, in chunk order, of the scans of the first `k` chunks.
pub open spec fn merged_chunks(c1: Seq<Point>, c2: Seq<Point>, count: int, k: int) -> Option<
    Candidate,
>
    decreases k,
{
    if k <= 0 {
        None
    } else {
        pick(
            merged_chunks(c1, c2, count, k - 1),
            rows_best(
                c1,
                c2,
                chunk_start(c1.len() as int, count, k - 1),
                chunk_start(c1.len() as int, count, k),
            ),
        )
    }
}

/// The merge of the first `k` chunk scans is the serial scan of the points
/// that those chunks hold.
pub proof fn lemma_merged_chunks_prefix(c1: Seq<Point>, c2: Seq<Point>, count: int, k: int)
    requires
        0 < count,
        0 <= k <= count,
    ensures
        merged_chunks(c1, c2, count, k) == rows_best(
            c1,
            c2,
            0,
            chunk_start(c1.len() as int, count, k),
        ),
    decreases k,
{
    let len = c1.len() as int;
    if k > 0 {
        lemma_merged_chunks_prefix(c1, c2, count, k - 1);
        lemma_chunks_cover(len, count, k - 1);
        lemma_rows_split(c1, c2, 0, chunk_start(len, count, k - 1), chunk_start(len, count, k));
    } else {
        lemma_chunks_cover(len, count, 0);
    }
}

/// Cutting the first contour into any number of chunks, scanning each chunk
/// apart and merging the outcomes in chunk order reproduces the serial scan.
pub proof fn lemma_chunking_reproduces_serial(c1: Seq<Point>, c2: Seq<Point>, count: int)
    requires
        0 < count,
    ensures
        merged_chunks(c1, c2, count, count) == rows_best(c1, c2, 0, c1.len() as int),
{
    lemma_merged_chunks_prefix(c1, c2, count, count);
    lemma_chunks_cover(c1.len() as int, count, 0);
}

/// For two contours that are not empty, the reported pair lies in the
/// contours, one point in each, and no cross pair is nearer.
pub proof fn lemma_closest_pair_is_minimum(c1: Seq<Point>, c2: Seq<Point>)
    requires
        0 < c1.len() <= usize::MAX,
        0 < c2.len() <= usize::MAX,
    ensures
        c1.contains(closest_pair_spec(c1, c2).0),
        c2.contains(closest_pair_spec(c1, c2).1),
        forall|a: int, b: int|
            0 <= a < c1.len() && 0 <= b < c2.len() ==> dist_sq(
                closest_pair_spec(c1, c2).0,
                closest_pair_spec(c1, c2).1,
            ) <= #[trigger] dist_sq(c1[a], c2[b]),
{
    lemma_rows_best_is_first_min(c1, c2, 0, c1.len() as int);
    let c = rows_best(c1, c2, 0, c1.len() as int)->0;
    let i = c.row as int;
    let j = c.col as int;
    assert(c1[i] == closest_pair_spec(c1, c2).0);
    assert(c2[j] == closest_pair_spec(c1, c2).1);
    assert forall|a: int, b: int| 0 <= a < c1.len() && 0 <= b < c2.len() implies dist_sq(
        c1[i],
        c2[j],
    ) <= #[trigger] dist_sq(c1[a], c2[b]) by {
        assert(precedes(c1, c2, i, j, a, b));
    }
}

/// Against an empty contour no row holds a pair.
pub proof fn lemma_rows_best_of_no_columns(c1: Seq<Point>, c2: Seq<Point>, lo: int, hi: int)
    requires
        c2.len() == 0,
    ensures
        rows_best(c1, c2, lo, hi) is None,
    decreases hi - lo,
{
    if lo < hi {
        lemma_rows_best_of_no_columns(c1, c2, lo, hi - 1);
    }
}

/// Where either contour is empty the search reports the origin twice.
pub proof fn lemma_closest_pair_of_nothing(c1: Seq<Point>, c2: Seq<Point>)
    requires
        c1.len() == 0 || c2.len() == 0,
    ensures
        closest_pair_spec(c1, c2) == (Point { x: 0, y: 0 }, Point { x: 0, y: 0 }),
{
    if c2.len() == 0 {
        lemma_rows_best_of_no_columns(c1, c2, 0, c1.len() as int);
    }
}

/// Keeps the better of two candidates, the first on a tie.
pub fn merge(a: Option<Candidate>, b: Option<Candidate>) -> (r: Option<Candidate>)
    ensures
        r == pick(a, b),
{
    match (a, b) {
        (None, _) => b,
        (Some(_), None) => a,
        (Some(x), Some(y)) => if y.dist < x.dist {
            b
        } else {
            a
        },
    }
}

/// Scans the points `lo..hi` of `c1` against all of `c2`.
pub fn scan_rows(c1: &Vec<Point>, c2: &Vec<Point>, lo: usize, hi: usize) -> (r: Option<Candidate>)
    requires
        lo <= hi <= c1.len(),
    ensures
        r == rows_best(c1@, c2@, lo as int, hi as int),
{
    let mut best: Option<Candidate> = None;
    let mut i: usize = lo;
    while i < hi
        invariant
            lo <= i <= hi <= c1.len(),
            best == rows_best(c1@, c2@, lo as int, i as int),
        decreases hi - i,
    {
        let mut row: Option<Candidate> = None;
        let mut j: usize = 0;
        while j < c2.len()
            invariant
                i < c1.len(),
                j <= c2.len(),
                row == row_best(c1@, c2@, i as int, j as int),
            decreases c2.len() - j,
        {
            let dist = squared_distance(c1[i], c2[j]);
            row = merge(row, Some(Candidate { row: i, col: j, dist }));
            j += 1;
        }
        best = merge(best, row);
        i += 1;
    }
    best
}

/// The number of chunks for a contour of `len` points and `workers` workers.
pub fn chunk_count(len: usize, workers: usize) -> (n: usize)
    ensures
        n == chunk_count_spec(len as int, workers as int),
{
    if len == 0 {
        0
    } else if workers <= 1 {
        1
    } else if len < workers {
        len
    } else {
        workers
    }
}

/// The points `lo..hi` that make up chunk `k` of `count`, or nothing where
/// there is no such chunk.
pub fn chunk_range(len: usize, count: usize, k: usize) -> (r: Option<(usize, usize)>)
    ensures
        r is Some <==> k < count,
        r matches Some((lo, hi)) ==> lo == chunk_start(len as int, count as int, k as int) && hi
            == chunk_start(len as int, count as int, k + 1) && lo <= hi <= len,
{
    if k >= count {
        return None;
    }
    let base: usize = len / count;
    let rest: usize = len % count;
    proof {
        lemma_chunks_cover(len as int, count as int, k as int);
        assert(k * base <= chunk_start(len as int, count as int, k as int));
        assert((k + 1) * base <= chunk_start(len as int, count as int, k + 1));
    }
    let lo: usize = k * base + if k < rest {
        k
    } else {
        rest
    };
    let hi: usize = (k + 1) * base + if k + 1 < rest {
        k + 1
    } else {
        rest
    };
    Some((lo, hi))
}

/// Searches for the closest pair with the first contour cut into chunks for
/// `workers` workers. The outcome is that of the serial scan, whatever the
/// number of workers.
pub fn closest_candidate(c1: &Vec<Point>, c2: &Vec<Point>, workers: usize) -> (r: Option<
    Candidate,
>)
    ensures
        r == rows_best(c1@, c2@, 0, c1.len() as int),
        r == merged_chunks(
            c1@,
            c2@,
            chunk_count_spec(c1.len() as int, workers as int),
            chunk_count_spec(c1.len() as int, workers as int),
        ),
{
    let len = c1.len();
    let count = chunk_count(len, workers);
    let mut best: Option<Candidate> = None;
    let mut k: usize = 0;
    while k < count
        invariant
            len == c1.len(),
            k <= count,
            count == chunk_count_spec(len as int, workers as int),
            best == merged_chunks(c1@, c2@, count as int, k as int),
        decreases count - k,
    {
        match chunk_range(len, count, k) {
            Some((lo, hi)) => {
                let found = scan_rows(c1, c2, lo, hi);
                best = merge(best, found);
            },
            None => {},
        }
        k += 1;
    }
    proof {
        if count > 0 {
            lemma_chunking_reproduces_serial(c1@, c2@, count as int);
        }
    }
    best
}

/// `num_cpus::get`: the number of logical cores that this process may use,
/// which is never less than one. The number differs from machine to machine.
#[verifier::external_body]
fn available_workers() -> (n: usize)
    ensures
        n >= 1,
{
    num_cpus::get()
}

/// The two points of a candidate, or the origin twice where there is none.
pub fn points_of(c1: &Vec<Point>, c2: &Vec<Point>, found: Option<Candidate>) -> (r: (Point, Point))
    requires
        found matches Some(c) ==> c.row < c1.len() && c.col < c2.len(),
    ensures
        r == match found {
            None => (Point { x: 0, y: 0 }, Point { x: 0, y: 0 }),
            Some(c) => (c1@[c.row as int], c2@[c.col as int]),
        },
{
    match found {
        None => (Point::origin(), Point::origin()),
        Some(c) => (c1[c.row], c2[c.col]),
    }
}

/// Finds the two closest points between two contours, with the work cut for
/// `workers` workers.
pub fn closest_pair_with(c1: &Vec<Point>, c2: &Vec<Point>, workers: usize) -> (r: (Point, Point))
    ensures
        r == closest_pair_spec(c1@, c2@),
{
    let found = closest_candidate(c1, c2, workers);
    let ghost others = c2.len();
    proof {
        lemma_rows_best_is_first_min(c1@, c2@, 0, c1.len() as int);
    }
    points_of(c1, c2, found)
}

/// Finds the two closest points between two contours: the first pair of
/// minimum distance in contour order, or the origin twice where either contour
/// is empty. The work is cut for as many workers as the machine has cores,
/// which has no bearing on the outcome.
pub fn closest_pair(c1: &Vec<Point>, c2: &Vec<Point>) -> (r: (Point, Point))
    ensures
        r == closest_pair_spec(c1@, c2@),
        c1.len() == 0 || c2.len() == 0 ==> r == (Point { x: 0, y: 0 }, Point { x: 0, y: 0 }),
        c1.len() > 0 && c2.len() > 0 ==> c1@.contains(r.0) && c2@.contains(r.1),
        forall|a: int, b: int|
            0 <= a < c1.len() && 0 <= b < c2.len() ==> dist_sq(r.0, r.1) <= #[trigger] dist_sq(
                c1@[a],
                c2@[b],
            ),
{
    let workers = available_workers();
    let ghost others = c2.len();
    proof {
        if c1.len() == 0 || c2.len() == 0 {
            lemma_closest_pair_of_nothing(c1@, c2@);
        } else {
            lemma_closest_pair_is_minimum(c1@, c2@);
        }
    }
    closest_pair_with(c1, c2, workers)
}

} // verus!

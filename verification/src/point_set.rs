//! The points of a foreground object, read off its mask.
//!
//! The mask is visited row by row at a fixed stride; a visited cell gives a
//! point where it belongs to the foreground. With a stride of one every cell is
//! visited. The points come out in the order of the visit, each one once.

use vstd::prelude::*;
use vstd::arithmetic::div_mod::lemma_mod_multiples_vanish;
use vstd::arithmetic::div_mod::lemma_small_mod;
use crate::geometry::Point;
use crate::image::is_threshold_of;
use crate::image::Luminance;
use crate::image::Mask;
use crate::stride::lemma_next_multiple;
use crate::stride::lemma_push_keeps;

verus! {

/// Point `p` is visited before point `q`: it lies in an earlier row, or
/// earlier in the same row.
pub open spec fn before(p: Point, q: Point) -> bool {
    p.y < q.y || (p.y == q.y && p.x < q.x)
}

/// Point `p` is a foreground cell of the mask that a visit at `stride` reaches.
pub open spec fn sampled(mask: Mask, stride: int, p: Point) -> bool {
    &&& mask.holds(p)
    &&& (p.x as int) % stride == 0
    &&& (p.y as int) % stride == 0
    &&& mask.at(p.x as int, p.y as int)
}

/// The points of `s` come one before the other in the order of the visit.
pub open spec fn in_visit_order(s: Seq<Point>) -> bool {
    forall|k: int, l: int| 0 <= k < l < s.len() ==> before(#[trigger] s[k], #[trigger] s[l])
}

/// Sequence `s` is the point set of the mask at `stride`: it holds the sampled
/// points, all of them, in the order of the visit.
pub open spec fn is_point_set(mask: Mask, stride: int, s: Seq<Point>) -> bool {
    &&& forall|k: int| 0 <= k < s.len() ==> sampled(mask, stride, #[trigger] s[k])
    &&& forall|p: Point| #[trigger] sampled(mask, stride, p) ==> s.contains(p)
    &&& in_visit_order(s)
}

/// Two sequences in visit order that hold the same points are the same
/// sequence.
pub proof fn lemma_visit_order_unique(a: Seq<Point>, b: Seq<Point>)
    requires
        in_visit_order(a),
        in_visit_order(b),
        forall|p: Point| a.contains(p) <==> b.contains(p),
    ensures
        a == b,
    decreases a.len(),
{
    if a.len() == 0 {
        if b.len() > 0 {
            assert(b.contains(b[0]));
        }
        assert(a =~= b);
    } else {
        let last_a = a.last();
        assert(a.contains(last_a));
        assert(b.contains(last_a));
        let last_b = b.last();
        assert(b.contains(last_b));
        assert(a.contains(last_b));
        let m = choose|m: int| 0 <= m < a.len() && a[m] == last_b;
        let k = choose|k: int| 0 <= k < b.len() && b[k] == last_a;
        if m < a.len() - 1 {
            assert(before(a[m], a[a.len() - 1]));
        }
        if k < b.len() - 1 {
            assert(before(b[k], b[b.len() - 1]));
        }
        assert(last_a == last_b);
        let short_a = a.drop_last();
        let short_b = b.drop_last();
        assert forall|p: Point| short_a.contains(p) <==> short_b.contains(p) by {
            if short_a.contains(p) {
                let i = choose|i: int| 0 <= i < short_a.len() && short_a[i] == p;
                assert(a[i] == p);
                assert(before(a[i], a[a.len() - 1]));
                assert(a.contains(p));
                let j = choose|j: int| 0 <= j < b.len() && b[j] == p;
                assert(short_b[j] == p);
            }
            if short_b.contains(p) {
                let i = choose|i: int| 0 <= i < short_b.len() && short_b[i] == p;
                assert(b[i] == p);
                assert(before(b[i], b[b.len() - 1]));
                assert(b.contains(p));
                let j = choose|j: int| 0 <= j < a.len() && a[j] == p;
                assert(short_a[j] == p);
            }
        }
        assert(in_visit_order(short_a)) by {
            assert forall|k: int, l: int| 0 <= k < l < short_a.len() implies before(
                #[trigger] short_a[k],
                #[trigger] short_a[l],
            ) by {
                assert(before(a[k], a[l]));
            }
        }
        assert(in_visit_order(short_b)) by {
            assert forall|k: int, l: int| 0 <= k < l < short_b.len() implies before(
                #[trigger] short_b[k],
                #[trigger] short_b[l],
            ) by {
                assert(before(b[k], b[l]));
            }
        }
        lemma_visit_order_unique(short_a, short_b);
        assert(a =~= short_a.push(last_a));
        assert(b =~= short_b.push(last_b));
    }
}

/// A mask has one point set at a given stride, and no other.
pub proof fn lemma_point_set_unique(mask: Mask, stride: int, a: Seq<Point>, b: Seq<Point>)
    requires
        is_point_set(mask, stride, a),
        is_point_set(mask, stride, b),
    ensures
        a == b,
{
    assert forall|p: Point| a.contains(p) <==> b.contains(p) by {
        if a.contains(p) {
            let i = choose|i: int| 0 <= i < a.len() && a[i] == p;
            assert(sampled(mask, stride, a[i]));
        }
        if b.contains(p) {
            let i = choose|i: int| 0 <= i < b.len() && b[i] == p;
            assert(sampled(mask, stride, b[i]));
        }
    }
    lemma_visit_order_unique(a, b);
}

/// The points of an object depend on nothing but the luminance image, the
/// level and the stride: two masks cut from one image at one level have the
/// same point set.
pub proof fn lemma_extraction_is_deterministic(
    gray: Luminance,
    level: i32,
    stride: int,
    mask_a: Mask,
    mask_b: Mask,
    a: Seq<Point>,
    b: Seq<Point>,
)
    requires
        is_threshold_of(mask_a, gray, level),
        is_threshold_of(mask_b, gray, level),
        is_point_set(mask_a, stride, a),
        is_point_set(mask_b, stride, b),
    ensures
        a == b,
{
    assert forall|p: Point| sampled(mask_a, stride, p) == sampled(mask_b, stride, p) by {
        if mask_a.holds(p) {
            assert(mask_a.at(p.x as int, p.y as int) == (gray.at(p.x as int, p.y as int) < level));
            assert(mask_b.at(p.x as int, p.y as int) == (gray.at(p.x as int, p.y as int) < level));
        }
    }
    assert(is_point_set(mask_a, stride, b)) by {
        assert forall|k: int| 0 <= k < b.len() implies sampled(mask_a, stride, #[trigger] b[k]) by {
            assert(sampled(mask_b, stride, b[k]));
        }
        assert forall|p: Point| #[trigger] sampled(mask_a, stride, p) implies b.contains(p) by {
            assert(sampled(mask_b, stride, p));
        }
    }
    lemma_point_set_unique(mask_a, stride, a, b);
}

/// A stride beyond every coordinate reaches the same cells as the largest
/// coordinate taken as stride: the first cell of the first row only.
proof fn lemma_clipped_stride(stride: int, step: int, v: int)
    requires
        0 < stride,
        step == if stride > i32::MAX {
            i32::MAX as int
        } else {
            stride
        },
        0 <= v < i32::MAX,
    ensures
        (v % stride == 0) == (v % step == 0),
{
    if stride != step {
        lemma_small_mod(v as nat, stride as nat);
        lemma_small_mod(v as nat, step as nat);
    }
}

/// Collects the foreground points of the mask that a visit at `stride`
/// reaches: the cells whose column and row are both multiples of the stride.
/// There is no visit at a stride that is not positive.
pub fn sample_points(mask: &Mask, stride: i64) -> (r: Option<Vec<Point>>)
    ensures
        r is Some <==> stride > 0,
        r matches Some(points) ==> is_point_set(*mask, stride as int, points@),
{
    if stride <= 0 {
        return None;
    }
    let width = mask.width();
    let height = mask.height();
    let step: usize = if stride > 0x7fff_ffff {
        0x7fff_ffff
    } else {
        stride as usize
    };
    let mut points: Vec<Point> = Vec::new();
    let mut y: usize = 0;
    while y < height
        invariant
            width == mask.spec_width(),
            height == mask.spec_height(),
            width <= i32::MAX,
            height <= i32::MAX,
            0 < step <= i32::MAX,
            y % step == 0,
            y < height + step,
            forall|k: int|
                0 <= k < points@.len() ==> sampled(*mask, step as int, #[trigger] points@[k])
                    && points@[k].y < y,
            forall|p: Point| #[trigger]
                sampled(*mask, step as int, p) && p.y < y ==> points@.contains(p),
            in_visit_order(points@),
        decreases height + step - y,
    {
        let mut x: usize = 0;
        while x < width
            invariant
                width == mask.spec_width(),
                height == mask.spec_height(),
                width <= i32::MAX,
                height <= i32::MAX,
                0 < step <= i32::MAX,
                y % step == 0,
                y < height,
                x % step == 0,
                x < width + step,
                forall|k: int|
                    0 <= k < points@.len() ==> sampled(*mask, step as int, #[trigger] points@[k])
                        && (points@[k].y < y || (points@[k].y == y && points@[k].x < x)),
                forall|p: Point| #[trigger]
                    sampled(*mask, step as int, p) && (p.y < y || (p.y == y && p.x < x))
                        ==> points@.contains(p),
                in_visit_order(points@),
            decreases width + step - x,
        {
            let ghost earlier = points@;
            let here = Point { x: x as i32, y: y as i32 };
            let kept = match mask.get(x, y) {
                Some(cell) => *cell,
                None => false,
            };
            if kept {
                points.push(here);
            }
            proof {
                lemma_mod_multiples_vanish(1, x as int, step as int);
                assert forall|p: Point| #[trigger]
                    sampled(*mask, step as int, p) && (p.y < y || (p.y == y && p.x < x + step))
                    implies points@.contains(p) by {
                    if p.y == y && p.x >= x {
                        lemma_next_multiple(x as int, step as int, p.x as int);
                        assert(p == here);
                        lemma_push_keeps(earlier, here, p);
                    } else {
                        assert(earlier.contains(p));
                        if kept {
                            lemma_push_keeps(earlier, here, p);
                        }
                    }
                }
            }
            x += step;
        }
        proof {
            lemma_mod_multiples_vanish(1, y as int, step as int);
            assert forall|p: Point| #[trigger]
                sampled(*mask, step as int, p) && p.y < y + step implies points@.contains(p) by {
                if p.y >= y {
                    lemma_next_multiple(y as int, step as int, p.y as int);
                }
            }
        }
        y += step;
    }
    proof {
        assert forall|p: Point|
            sampled(*mask, stride as int, p) == sampled(*mask, step as int, p) by {
            if mask.holds(p) {
                lemma_clipped_stride(stride as int, step as int, p.x as int);
                lemma_clipped_stride(stride as int, step as int, p.y as int);
            }
        }
    }
    Some(points)
}

/// Collects every foreground point of the mask, row by row.
pub fn foreground_points(mask: &Mask) -> (points: Vec<Point>)
    ensures
        is_point_set(*mask, 1, points@),
        forall|p: Point| points@.contains(p) <==> mask.holds(p) && mask.at(p.x as int, p.y as int),
{
    match sample_points(mask, 1) {
        Some(points) => {
            proof {
                assert forall|p: Point| points@.contains(p) implies mask.holds(p) && mask.at(
                    p.x as int,
                    p.y as int,
                ) by {
                    let i = choose|i: int| 0 <= i < points@.len() && points@[i] == p;
                    assert(sampled(*mask, 1, points@[i]));
                }
                assert forall|p: Point|
                    mask.holds(p) && mask.at(p.x as int, p.y as int) implies points@.contains(
                    p,
                ) by {
                    assert(sampled(*mask, 1, p));
                }
            }
            points
        },
        None => Vec::new(),
    }
}

} // verus!

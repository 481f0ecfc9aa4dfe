//! The grid of squares by which a frame is redrawn in coarse pixels.
//!
//! A square is `pixel_size` wide and high. The squares start at the multiples
//! of the stride, which is the pixel size plus the spacing, and only squares
//! that lie on the frame as a whole are drawn.

use vstd::prelude::*;
use vstd::arithmetic::div_mod::lemma_fundamental_div_mod;
use vstd::arithmetic::div_mod::lemma_mod_multiples_vanish;
use crate::stride::lemma_next_multiple;
use crate::stride::lemma_push_keeps;

verus! {

/// A rectangle of pixels, named by its upper left corner and its extent.
#[derive(Clone, Copy, Debug, PartialEq, Eq, Structural)]
pub struct Rect {
    pub x: i32,
    pub y: i32,
    pub width: i32,
    pub height: i32,
}

/// Rectangle `r` is a square of the grid on a frame of `cols` by `rows` pixels.
pub open spec fn is_cell(cols: int, rows: int, pixel_size: int, stride: int, r: Rect) -> bool {
    &&& r.width == pixel_size
    &&& r.height == pixel_size
    &&& 0 <= r.x
    &&& 0 <= r.y
    &&& (r.x as int) % stride == 0
    &&& (r.y as int) % stride == 0
    &&& r.x + pixel_size <= cols
    &&& r.y + pixel_size <= rows
}

/// Square `a` is drawn before square `b`: it lies in an earlier row of
/// squares, or earlier in the same row.
pub open spec fn drawn_before(a: Rect, b: Rect) -> bool {
    a.y < b.y || (a.y == b.y && a.x < b.x)
}

/// The squares of `s` come in the order in which they are drawn.
pub open spec fn in_drawing_order(s: Seq<Rect>) -> bool {
    forall|k: int, l: int| 0 <= k < l < s.len() ==> drawn_before(#[trigger] s[k], #[trigger] s[l])
}

/// Sequence `s` holds the squares of the grid, all of them, row by row.
pub open spec fn is_cell_grid(
    cols: int,
    rows: int,
    pixel_size: int,
    stride: int,
    s: Seq<Rect>,
) -> bool {
    &&& forall|k: int| 0 <= k < s.len() ==> is_cell(cols, rows, pixel_size, stride, #[trigger] s[k])
    &&& forall|r: Rect| #[trigger] is_cell(cols, rows, pixel_size, stride, r) ==> s.contains(r)
    &&& in_drawing_order(s)
}

/// The side of the square that is drawn for a cell of side `pixel_size` whose
/// pixels have the mean brightness `brightness`: the whole side where the
/// pixels are black, one pixel where they are white.
pub open spec fn fitted_side(pixel_size: int, brightness: int) -> int {
    1 + ((255 - brightness) * (pixel_size - 1)) / 255
}

/// The square that is drawn for `cell` at the given brightness: of the fitted
/// side, moved up and left by half of that side.
pub open spec fn fitted_rect(cell: Rect, brightness: int) -> Rect {
    let side = fitted_side(cell.width as int, brightness);
    Rect {
        x: (cell.x - side / 2) as i32,
        y: (cell.y - side / 2) as i32,
        width: side as i32,
        height: side as i32,
    }
}

/// The fitted side lies between one pixel and the whole side.
pub proof fn lemma_fitted_side_bounds(pixel_size: int, brightness: int)
    requires
        1 <= pixel_size,
        0 <= brightness <= 255,
    ensures
        1 <= fitted_side(pixel_size, brightness) <= pixel_size,
        brightness == 0 ==> fitted_side(pixel_size, brightness) == pixel_size,
        brightness == 255 ==> fitted_side(pixel_size, brightness) == 1,
{
    let dark = 255 - brightness;
    let room = pixel_size - 1;
    assert(0 <= dark * room <= 255 * room) by (nonlinear_arith)
        requires
            0 <= dark <= 255,
            0 <= room,
    ;
    lemma_fundamental_div_mod(dark * room, 255);
    if brightness == 0 {
        assert((255 * room) / 255 == room) by (nonlinear_arith);
    }
    if brightness == 255 {
        assert(0 * room == 0);
    }
}

/// Lays out the squares by which a frame of `cols` by `rows` pixels is
/// redrawn. There is no grid where the pixel size, or the pixel size plus the
/// spacing, is not positive.
pub fn pixelate_frame(cols: i32, rows: i32, pixel_size: i32, spacing: i32) -> (r: Option<Vec<Rect>>)
    ensures
        r is Some <==> pixel_size > 0 && pixel_size + spacing > 0,
        r matches Some(cells) ==> is_cell_grid(
            cols as int,
            rows as int,
            pixel_size as int,
            pixel_size + spacing,
            cells@,
        ),
{
    let stride: i64 = pixel_size as i64 + spacing as i64;
    if pixel_size <= 0 || stride <= 0 {
        return None;
    }
    let side: i64 = pixel_size as i64;
    let mut cells: Vec<Rect> = Vec::new();
    let mut y: i64 = 0;
    while y + side <= rows as i64
        invariant
            stride == pixel_size + spacing,
            side == pixel_size,
            0 < side,
            0 < stride,
            0 <= y,
            y % stride == 0,
            y <= 0x2_0000_0000,
            forall|k: int|
                0 <= k < cells@.len() ==> is_cell(
                    cols as int,
                    rows as int,
                    side as int,
                    stride as int,
                    #[trigger] cells@[k],
                ) && cells@[k].y < y,
            forall|r: Rect| #[trigger]
                is_cell(cols as int, rows as int, side as int, stride as int, r) && r.y < y
                    ==> cells@.contains(r),
            in_drawing_order(cells@),
        decreases rows + stride - y,
    {
        let mut x: i64 = 0;
        while x + side <= cols as i64
            invariant
                stride == pixel_size + spacing,
                side == pixel_size,
                0 < side,
                0 < stride,
                0 <= y,
                y % stride == 0,
                y + side <= rows,
                0 <= x,
                x % stride == 0,
                x <= 0x2_0000_0000,
                forall|k: int|
                    0 <= k < cells@.len() ==> is_cell(
                        cols as int,
                        rows as int,
                        side as int,
                        stride as int,
                        #[trigger] cells@[k],
                    ) && (cells@[k].y < y || (cells@[k].y == y && cells@[k].x < x)),
                forall|r: Rect| #[trigger]
                    is_cell(cols as int, rows as int, side as int, stride as int, r) && (r.y < y
                        || (r.y == y && r.x < x)) ==> cells@.contains(r),
                in_drawing_order(cells@),
            decreases cols + stride - x,
        {
            let ghost earlier = cells@;
            let here = Rect { x: x as i32, y: y as i32, width: pixel_size, height: pixel_size };
            cells.push(here);
            proof {
                lemma_mod_multiples_vanish(1, x as int, stride as int);
                assert forall|r: Rect| #[trigger]
                    is_cell(cols as int, rows as int, side as int, stride as int, r) && (r.y < y
                        || (r.y == y && r.x < x + stride)) implies cells@.contains(r) by {
                    if r.y == y && r.x >= x {
                        lemma_next_multiple(x as int, stride as int, r.x as int);
                        assert(r == here);
                    } else {
                        assert(earlier.contains(r));
                    }
                    lemma_push_keeps(earlier, here, r);
                }
            }
            x += stride;
        }
        proof {
            lemma_mod_multiples_vanish(1, y as int, stride as int);
            assert forall|r: Rect| #[trigger]
                is_cell(cols as int, rows as int, side as int, stride as int, r) && r.y < y
                    + stride implies cells@.contains(r) by {
                if r.y >= y {
                    lemma_next_multiple(y as int, stride as int, r.y as int);
                }
            }
        }
        y += stride;
    }
    Some(cells)
}

/// Fits the square of a cell to the brightness of its pixels: the brighter
/// they are, the smaller the square that is drawn for them.
pub fn fit_to_brightness(cell: Rect, brightness: u8) -> (r: Rect)
    requires
        cell.width >= 1,
        cell.x >= 0,
        cell.y >= 0,
    ensures
        r == fitted_rect(cell, brightness as int),
        1 <= r.width <= cell.width,
        r.height == r.width,
{
    let dark: i64 = 255 - brightness as i64;
    let room: i64 = cell.width as i64 - 1;
    proof {
        lemma_fitted_side_bounds(cell.width as int, brightness as int);
        assert(0 <= dark * room <= 255 * room) by (nonlinear_arith)
            requires
                0 <= dark <= 255,
                0 <= room,
        ;
    }
    let side: i64 = 1 + (dark * room) / 255;
    let half: i64 = side / 2;
    Rect {
        x: (cell.x as i64 - half) as i32,
        y: (cell.y as i64 - half) as i32,
        width: side as i32,
        height: side as i32,
    }
}

} // verus!

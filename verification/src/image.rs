//! Rectangular grids of cells: colour frames, luminance images and masks.
//!
//! A grid stores its cells row by row. Its extent never exceeds what a signed
//! 32-bit coordinate can address, so that every cell has a [`Point`].

use vstd::prelude::*;
use crate::geometry::Point;

verus! {

/// The colour of one pixel of a frame, in the channel order of the capture.
#[derive(Clone, Copy, Debug, PartialEq, Eq, Structural)]
pub struct Color {
    pub blue: u8,
    pub green: u8,
    pub red: u8,
}

/// A grid of `width` by `height` cells.
pub struct Grid<T> {
    width: usize,
    height: usize,
    cells: Vec<T>,
}

/// A colour frame.
pub type Frame = Grid<Color>;

/// A luminance image: one brightness value per pixel.
pub type Luminance = Grid<u8>;

/// A binary mask: a cell is `true` where the pixel belongs to the foreground.
pub type Mask = Grid<bool>;

/// The cell in column `x` of row `y` has a place in the row-by-row storage.
pub proof fn lemma_cell_index(x: int, y: int, width: int, height: int)
    requires
        0 <= x < width,
        0 <= y < height,
    ensures
        0 <= y * width + x < width * height,
{
    assert(y * width + x < width * height) by (nonlinear_arith)
        requires
            0 <= x < width,
            0 <= y < height,
    {
        assert((y + 1) * width <= height * width);
        assert((y + 1) * width == y * width + width);
    }
    assert(0 <= y * width) by (nonlinear_arith)
        requires
            0 <= y,
            0 <= width,
    ;
}

impl<T> Grid<T> {
    #[verifier::type_invariant]
    spec fn inv(&self) -> bool {
        &&& self.width <= i32::MAX
        &&& self.height <= i32::MAX
        &&& self.cells@.len() == self.width * self.height
    }

    /// The number of columns.
    pub closed spec fn spec_width(&self) -> usize {
        self.width
    }

    /// The number of rows.
    pub closed spec fn spec_height(&self) -> usize {
        self.height
    }

    /// The cell in column `x` of row `y`.
    pub closed spec fn at(&self, x: int, y: int) -> T {
        self.cells@[y * self.width + x]
    }

    /// Position `p` lies on the grid.
    pub open spec fn holds(&self, p: Point) -> bool {
        0 <= p.x < self.spec_width() && 0 <= p.y < self.spec_height()
    }

    /// Makes a grid of the cells given row by row. There is no grid where the
    /// number of cells is not `width * height`, or where an extent is beyond
    /// the range of a coordinate.
    pub fn new(width: usize, height: usize, cells: Vec<T>) -> (r: Option<Grid<T>>)
        ensures
            r is Some <==> width <= i32::MAX && height <= i32::MAX && cells.len() == width
                * height,
            r matches Some(g) ==> g.spec_width() == width && g.spec_height() == height
                && forall|x: int, y: int|
                0 <= x < width && 0 <= y < height ==> #[trigger] g.at(x, y) == cells@[y * width
                    + x],
    {
        if width > 0x7fff_ffff || height > 0x7fff_ffff {
            return None;
        }
        match width.checked_mul(height) {
            None => None,
            Some(count) => {
                if cells.len() == count {
                    Some(Grid { width, height, cells })
                } else {
                    None
                }
            },
        }
    }

    /// The grid without any cell.
    pub fn empty() -> (g: Grid<T>)
        ensures
            g.spec_width() == 0,
            g.spec_height() == 0,
    {
        Grid { width: 0, height: 0, cells: Vec::new() }
    }

    #[verifier::when_used_as_spec(spec_width)]
    pub fn width(&self) -> (w: usize)
        ensures
            w == self.spec_width(),
            w <= i32::MAX,
    {
        proof {
            use_type_invariant(self);
        }
        self.width
    }

    #[verifier::when_used_as_spec(spec_height)]
    pub fn height(&self) -> (h: usize)
        ensures
            h == self.spec_height(),
            h <= i32::MAX,
    {
        proof {
            use_type_invariant(self);
        }
        self.height
    }

    /// The cell in column `x` of row `y`, if the grid has one there.
    pub fn get(&self, x: usize, y: usize) -> (r: Option<&T>)
        ensures
            r == if x < self.spec_width() && y < self.spec_height() {
                Some(&self.at(x as int, y as int))
            } else {
                None
            },
    {
        proof {
            use_type_invariant(self);
        }
        let count = self.cells.len();
        if x < self.width && y < self.height {
            proof {
                lemma_cell_index(x as int, y as int, self.width as int, self.height as int);
                assert(y * self.width + x < count);
                assert(0 <= y * self.width) by (nonlinear_arith)
                    requires
                        0 <= y,
                        0 <= self.width,
                ;
            }
            Some(&self.cells[y * self.width + x])
        } else {
            None
        }
    }

    /// The cell at position `p`, if `p` lies on the grid.
    pub fn sample(&self, p: Point) -> (r: Option<&T>)
        ensures
            r == if self.holds(p) {
                Some(&self.at(p.x as int, p.y as int))
            } else {
                None
            },
    {
        if p.x < 0 || p.y < 0 {
            None
        } else {
            self.get(p.x as usize, p.y as usize)
        }
    }
}

/// The mask is the luminance image classified at `level`: of the same extent,
/// with a cell in the foreground exactly where the pixel is darker than
/// `level`.
pub open spec fn is_threshold_of(mask: Mask, gray: Luminance, level: i32) -> bool {
    &&& mask.spec_width() == gray.spec_width()
    &&& mask.spec_height() == gray.spec_height()
    &&& forall|x: int, y: int|
        0 <= x < gray.spec_width() && 0 <= y < gray.spec_height() ==> #[trigger] mask.at(x, y) == (
        gray.at(x, y) < level)
}

/// Classifies every pixel of a luminance image: a pixel is foreground where it
/// is darker than `level`, and background where it is as bright or brighter.
pub fn threshold(gray: &Luminance, level: i32) -> (mask: Mask)
    ensures
        is_threshold_of(mask, *gray, level),
{
    proof {
        use_type_invariant(gray);
    }
    let count = gray.cells.len();
    let mut cells: Vec<bool> = Vec::new();
    let mut i: usize = 0;
    while i < count
        invariant
            count == gray.cells@.len(),
            i <= count,
            cells@.len() == i,
            forall|k: int| 0 <= k < i ==> #[trigger] cells@[k] == (gray.cells@[k] < level),
        decreases count - i,
    {
        let dark = (gray.cells[i] as i32) < level;
        cells.push(dark);
        i += 1;
    }
    let mask = Grid { width: gray.width, height: gray.height, cells };
    proof {
        assert forall|x: int, y: int|
            0 <= x < gray.spec_width() && 0 <= y < gray.spec_height() implies #[trigger] mask.at(
            x,
            y,
        ) == (gray.at(x, y) < level) by {
            lemma_cell_index(x, y, gray.width as int, gray.height as int);
        }
    }
    mask
}

} // verus!

use vstd::prelude::*;
use crate::error::Error;

verus! {

/// Index of cell `(x, y)` in the row-major cell list of a matrix `width` wide.
pub open spec fn cell_index(x: int, y: int, width: int) -> int {
    y * width + x
}

proof fn lemma_cell_in_bounds(x: int, y: int, width: int, height: int)
    requires
        0 <= x < width,
        0 <= y < height,
    ensures
        0 <= cell_index(x, y, width) < width * height,
        width <= 0xFFFF_FFFF && height <= 0xFFFF_FFFF ==> width * height <= 0xFFFF_FFFE_0000_0001,
{
    if width <= 0xFFFF_FFFF && height <= 0xFFFF_FFFF {
        assert(width * height <= 0xFFFF_FFFFint * 0xFFFF_FFFFint) by (nonlinear_arith)
            requires
                0 <= width <= 0xFFFF_FFFF,
                0 <= height <= 0xFFFF_FFFF,
        ;
    }
    assert(y * width + x < width * height) by (nonlinear_arith)
        requires
            0 <= x < width,
            0 <= y < height,
    ;
    assert(0 <= y * width) by (nonlinear_arith)
        requires
            0 <= y,
            0 <= width,
    ;
}

/// A two-dimensional matrix of bits (modules), `true` meaning set (black).
/// `x` is the column and `y` the row.
#[derive(Debug, Clone, PartialEq, Eq)]
pub struct BitMatrix {
    width: u32,
    height: u32,
    bits: Vec<bool>,
}

impl BitMatrix {
    /// The cells are exactly `width * height`, row after row.
    pub closed spec fn wf(&self) -> bool {
        self.bits@.len() == self.width as int * self.height as int
    }

    /// Width of the matrix.
    pub closed spec fn spec_width(&self) -> u32 {
        self.width
    }

    /// Height of the matrix.
    pub closed spec fn spec_height(&self) -> u32 {
        self.height
    }

    /// Whether the cell at column `x`, row `y` is set; `false` outside.
    pub closed spec fn spec_get(&self, x: int, y: int) -> bool {
        if 0 <= x < self.width && 0 <= y < self.height && cell_index(x, y, self.width as int)
            < self.bits@.len() {
            self.bits@[cell_index(x, y, self.width as int)]
        } else {
            false
        }
    }

    /// A cell outside the matrix is never set.
    pub proof fn lemma_get_outside(&self, x: int, y: int)
        requires
            !(0 <= x < self.spec_width() && 0 <= y < self.spec_height()),
        ensures
            !self.spec_get(x, y),
    {
    }

    /// A `width` by `height` matrix with every cell clear. Both dimensions
    /// must be positive.
    pub fn new(width: u32, height: u32) -> (res: Result<Self, Error>)
        requires
            width as int * height as int <= usize::MAX,
        ensures
            (width == 0 || height == 0) <==> res is Err,
            res matches Err(e) ==> e == Error::InvalidArgument,
            res matches Ok(m) ==> m.wf() && m.spec_width() == width && m.spec_height() == height && forall|
                x: int,
                y: int,
            | !#[trigger] m.spec_get(x, y),
    {
        if width == 0 || height == 0 {
            return Err(Error::InvalidArgument);
        }
        let count: usize = (width as usize) * (height as usize);
        let bits: Vec<bool> = vec![false; count];
        let m = BitMatrix { width, height, bits };
        proof {
            assert forall|x: int, y: int| !#[trigger] m.spec_get(x, y) by {
                if 0 <= x < width && 0 <= y < height {
                    lemma_cell_in_bounds(x, y, width as int, height as int);
                }
            }
        }
        Ok(m)
    }

    /// A square matrix with side `dimension`.
    pub fn with_single_dimension(dimension: u32) -> (res: Result<Self, Error>)
        requires
            dimension as int * dimension as int <= usize::MAX,
        ensures
            (dimension == 0) <==> res is Err,
            res matches Err(e) ==> e == Error::InvalidArgument,
            res matches Ok(m) ==> m.wf() && m.spec_width() == dimension && m.spec_height() == dimension
                && forall|x: int, y: int| !#[trigger] m.spec_get(x, y),
    {
        Self::new(dimension, dimension)
    }

    /// Width of the matrix.
    pub fn width(&self) -> (res: u32)
        ensures
            res == self.spec_width(),
    {
        self.width
    }

    /// Height of the matrix.
    pub fn height(&self) -> (res: u32)
        ensures
            res == self.spec_height(),
    {
        self.height
    }

    /// Whether the cell at column `x`, row `y` is set; cells outside the
    /// matrix read as clear.
    pub fn get(&self, x: u32, y: u32) -> (res: bool)
        ensures
            res == self.spec_get(x as int, y as int),
    {
        if x >= self.width || y >= self.height {
            return false;
        }
        proof {
            lemma_cell_in_bounds(x as int, y as int, self.width as int, self.height as int);
        }
        let index: u64 = (y as u64) * (self.width as u64) + (x as u64);
        if index >= self.bits.len() as u64 {
            return false;
        }
        self.bits[index as usize]
    }

    fn put(&mut self, x: u32, y: u32, value: bool)
        requires
            old(self).wf(),
            x < old(self).spec_width(),
            y < old(self).spec_height(),
        ensures
            final(self).wf(),
            final(self).spec_width() == old(self).spec_width(),
            final(self).spec_height() == old(self).spec_height(),
            forall|i: int, j: int|
                #[trigger] final(self).spec_get(i, j) == if i == x && j == y {
                    value
                } else {
                    old(self).spec_get(i, j)
                },
    {
        proof {
            lemma_cell_in_bounds(x as int, y as int, self.width as int, self.height as int);
        }
        let wide: u64 = (y as u64) * (self.width as u64) + (x as u64);
        let len: usize = self.bits.len();
        assert(wide < len);
        let index: usize = wide as usize;
        assert(index as int == cell_index(x as int, y as int, self.width as int));
        let ghost before = *self;
        self.bits.set(index, value);
        proof {
            assert forall|i: int, j: int| #[trigger] self.spec_get(i, j) == if i == x && j == y {
                value
            } else {
                before.spec_get(i, j)
            } by {
                if 0 <= i < self.width && 0 <= j < self.height {
                    lemma_cell_in_bounds(i, j, self.width as int, self.height as int);
                    if !(i == x && j == y) {
                        assert(cell_index(i, j, self.width as int) != cell_index(
                            x as int,
                            y as int,
                            self.width as int,
                        )) by (nonlinear_arith)
                            requires
                                0 <= i < self.width,
                                0 <= x < self.width,
                                !(i == x && j == y),
                        ;
                    }
                }
            }
        }
    }

    /// Sets the cell at column `x`, row `y`.
    pub fn set(&mut self, x: u32, y: u32)
        requires
            old(self).wf(),
            x < old(self).spec_width(),
            y < old(self).spec_height(),
        ensures
            final(self).wf(),
            final(self).spec_width() == old(self).spec_width(),
            final(self).spec_height() == old(self).spec_height(),
            forall|i: int, j: int|
                #[trigger] final(self).spec_get(i, j) == ((i == x && j == y) || old(self).spec_get(
                    i,
                    j,
                )),
    {
        self.put(x, y, true);
    }

    /// Clears the cell at column `x`, row `y`.
    pub fn unset(&mut self, x: u32, y: u32)
        requires
            old(self).wf(),
            x < old(self).spec_width(),
            y < old(self).spec_height(),
        ensures
            final(self).wf(),
            final(self).spec_width() == old(self).spec_width(),
            final(self).spec_height() == old(self).spec_height(),
            forall|i: int, j: int|
                #[trigger] final(self).spec_get(i, j) == (!(i == x && j == y) && old(self).spec_get(
                    i,
                    j,
                )),
    {
        self.put(x, y, false);
    }

    /// Flips the cell at column `x`, row `y`.
    pub fn flip(&mut self, x: u32, y: u32)
        requires
            old(self).wf(),
            x < old(self).spec_width(),
            y < old(self).spec_height(),
        ensures
            final(self).wf(),
            final(self).spec_width() == old(self).spec_width(),
            final(self).spec_height() == old(self).spec_height(),
            forall|i: int, j: int|
                #[trigger] final(self).spec_get(i, j) == if i == x && j == y {
                    !old(self).spec_get(i, j)
                } else {
                    old(self).spec_get(i, j)
                },
    {
        let current = self.get(x, y);
        self.put(x, y, !current);
    }

    /// Sets every cell of the rectangle whose top left corner is
    /// `(left, top)`. The rectangle must be nonempty and lie inside the
    /// matrix; otherwise the matrix is left as it is.
    pub fn set_region(&mut self, left: u32, top: u32, width: u32, height: u32) -> (res: Result<(), Error>)
        requires
            old(self).wf(),
        ensures
            final(self).wf(),
            final(self).spec_width() == old(self).spec_width(),
            final(self).spec_height() == old(self).spec_height(),
            (width == 0 || height == 0) ==> res == Err::<(), Error>(Error::InvalidArgument),
            (width > 0 && height > 0 && (left + width > old(self).spec_width() || top + height
                > old(self).spec_height())) ==> res == Err::<(), Error>(Error::InvalidArgument),
            res is Err ==> *final(self) == *old(self),
            res is Ok <==> (width > 0 && height > 0 && left + width <= old(self).spec_width() && top
                + height <= old(self).spec_height()),
            res is Ok ==> forall|i: int, j: int|
                #[trigger] final(self).spec_get(i, j) == ((left <= i < left + width && top <= j
                    < top + height) || old(self).spec_get(i, j)),
    {
        if width == 0 || height == 0 {
            return Err(Error::InvalidArgument);
        }
        if left as u64 + width as u64 > self.width as u64 || top as u64 + height as u64
            > self.height as u64 {
            return Err(Error::InvalidArgument);
        }
        let right: u32 = left + width;
        let bottom: u32 = top + height;
        let ghost start = *self;
        let mut y: u32 = top;
        while y < bottom
            invariant
                self.wf(),
                top <= y <= bottom,
                bottom == top + height,
                right == left + width,
                right <= start.spec_width(),
                bottom <= start.spec_height(),
                self.spec_width() == start.spec_width(),
                self.spec_height() == start.spec_height(),
                forall|i: int, j: int|
                    #[trigger] self.spec_get(i, j) == ((left <= i < right && top <= j < y)
                        || start.spec_get(i, j)),
            decreases bottom - y,
        {
            let mut x: u32 = left;
            while x < right
                invariant
                    self.wf(),
                    left <= x <= right,
                    top <= y < bottom,
                    bottom == top + height,
                    right == left + width,
                    right <= start.spec_width(),
                    bottom <= start.spec_height(),
                    self.spec_width() == start.spec_width(),
                    self.spec_height() == start.spec_height(),
                    forall|i: int, j: int|
                        #[trigger] self.spec_get(i, j) == ((left <= i < right && top <= j < y) || (
                        left <= i < x && j == y) || start.spec_get(i, j)),
                decreases right - x,
            {
                self.set(x, y);
                x = x + 1;
            }
            y = y + 1;
        }
        Ok(())
    }
}

} // verus!

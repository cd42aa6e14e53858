use vstd::prelude::*;
use crate::error::Error;

verus! {

/// A `width` by `height` matrix of optional values, row after row.
#[derive(Debug, Clone)]
pub struct Matrix<T: Copy> {
    width: usize,
    height: usize,
    data: Vec<Option<T>>,
}

impl<T: Copy> Matrix<T> {
    /// The cells number `width * height`.
    pub open spec fn wf(&self) -> bool {
        self.spec_data().len() == self.spec_width() as int * self.spec_height() as int
    }

    /// Width of the matrix.
    pub closed spec fn spec_width(&self) -> usize {
        self.width
    }

    /// Height of the matrix.
    pub closed spec fn spec_height(&self) -> usize {
        self.height
    }

    /// The cells, row after row.
    pub closed spec fn spec_data(&self) -> Seq<Option<T>> {
        self.data@
    }

    /// The matrix with the given cells; their number must be
    /// `width * height`, which must fit in a `usize` (else an invalid
    /// argument).
    pub fn with_data(width: usize, height: usize, data: Vec<Option<T>>) -> (res: Result<Matrix<T>, Error>)
        ensures
            (width as int * height as int > usize::MAX || data@.len() != width as int * height as int)
                ==> res == Err::<Matrix<T>, Error>(Error::InvalidArgument),
            (width as int * height as int <= usize::MAX && data@.len() == width as int * height as int)
                ==> (res matches Ok(m) && m.wf() && m.spec_width() == width && m.spec_height() == height
                && m.spec_data() == data@),
    {
        let expected = match width.checked_mul(height) {
            Some(v) => v,
            None => {
                return Err(Error::InvalidArgument);
            },
        };
        if data.len() != expected {
            return Err(Error::InvalidArgument);
        }
        Ok(Matrix { width, height, data })
    }

    /// A `width` by `height` matrix of empty cells; `width * height` must
    /// fit in a `usize` (else an invalid argument).
    pub fn new(width: usize, height: usize) -> (res: Result<Matrix<T>, Error>)
        ensures
            width as int * height as int > usize::MAX ==> res == Err::<Matrix<T>, Error>(Error::InvalidArgument),
            width as int * height as int <= usize::MAX ==> (res matches Ok(m) && m.wf() && m.spec_width()
                == width && m.spec_height() == height && m.spec_data() == Seq::new(
                (width * height) as nat,
                |i: int| None::<T>,
            )),
    {
        let size = match width.checked_mul(height) {
            Some(v) => v,
            None => {
                return Err(Error::InvalidArgument);
            },
        };
        let mut data: Vec<Option<T>> = Vec::new();
        let mut i: usize = 0;
        while i < size
            invariant
                i <= size,
                data@ == Seq::new(i as nat, |k: int| None::<T>),
            decreases size - i,
        {
            data.push(None);
            assert(data@ =~= Seq::new((i + 1) as nat, |k: int| None::<T>));
            i = i + 1;
        }
        Ok(Matrix { width, height, data })
    }

    /// Height of the matrix.
    pub fn height(&self) -> (res: usize)
        ensures
            res == self.spec_height(),
    {
        self.height
    }

    /// Width of the matrix.
    pub fn width(&self) -> (res: usize)
        ensures
            res == self.spec_width(),
    {
        self.width
    }

    /// Number of cells.
    pub fn size(&self) -> (res: usize)
        ensures
            res == self.spec_data().len(),
    {
        self.data.len()
    }

    /// The value at column `x`, row `y`; `None` outside the matrix or in an
    /// empty cell.
    pub fn get(&self, x: usize, y: usize) -> (res: Option<T>)
        requires
            self.wf(),
        ensures
            res == (if x < self.spec_width() && y < self.spec_height() {
                self.spec_data()[y * self.spec_width() + x]
            } else {
                None::<T>
            }),
    {
        if x >= self.width || y >= self.height {
            return None;
        }
        proof {
            assert(y * self.width + x < self.width as int * self.height as int) by (nonlinear_arith)
                requires
                    x < self.width,
                    y < self.height,
            ;
            assert(0 <= y * self.width) by (nonlinear_arith);
        }
        let len = self.data.len();
        assert(y * self.width + x < len);
        let offset = y * self.width + x;
        self.data[offset]
    }

    /// Stores `value` at column `x`, row `y` and returns it; a place outside
    /// the matrix is out of bounds and leaves the matrix as it is.
    pub fn set(&mut self, x: usize, y: usize, value: T) -> (res: Result<T, Error>)
        requires
            old(self).wf(),
        ensures
            final(self).wf(),
            final(self).spec_width() == old(self).spec_width(),
            final(self).spec_height() == old(self).spec_height(),
            (x >= old(self).spec_width() || y >= old(self).spec_height()) ==> res == Err::<T, Error>(
                Error::IndexOutOfBounds,
            ) && final(self).spec_data() == old(self).spec_data(),
            (x < old(self).spec_width() && y < old(self).spec_height()) ==> res == Ok::<T, Error>(value)
                && final(self).spec_data() == old(self).spec_data().update(
                y * old(self).spec_width() + x,
                Some(value),
            ),
    {
        if x >= self.width || y >= self.height {
            return Err(Error::IndexOutOfBounds);
        }
        proof {
            assert(y * self.width + x < self.width as int * self.height as int) by (nonlinear_arith)
                requires
                    x < self.width,
                    y < self.height,
            ;
            assert(0 <= y * self.width) by (nonlinear_arith);
        }
        let len = self.data.len();
        assert(y * self.width + x < len);
        let offset = y * self.width + x;
        self.data.set(offset, Some(value));
        Ok(value)
    }

    /// The cells, row after row.
    pub fn data(&self) -> (res: &[Option<T>])
        ensures
            res@ == self.spec_data(),
    {
        self.data.as_slice()
    }

    /// Fills every cell with `value`.
    pub fn clear_with(&mut self, value: T)
        ensures
            final(self).spec_width() == old(self).spec_width(),
            final(self).spec_height() == old(self).spec_height(),
            final(self).spec_data() == Seq::new(old(self).spec_data().len(), |i: int| Some(value)),
            old(self).wf() ==> final(self).wf(),
    {
        let n = self.data.len();
        let mut i: usize = 0;
        while i < n
            invariant
                i <= n,
                n == self.data@.len(),
                n == old(self).data@.len(),
                self.width == old(self).width,
                self.height == old(self).height,
                forall|k: int| 0 <= k < i ==> self.data@[k] == Some(value),
            decreases n - i,
        {
            self.data.set(i, Some(value));
            i = i + 1;
        }
        assert(self.data@ =~= Seq::new(n as nat, |i: int| Some(value)));
    }

    /// A valid matrix holds `width * height` cells, and every place inside it
    /// is one of them.
    pub proof fn lemma_cell_count(&self, x: usize, y: usize)
        requires
            self.wf(),
            x < self.spec_width(),
            y < self.spec_height(),
        ensures
            self.spec_data().len() == self.spec_width() as int * self.spec_height() as int,
            0 <= y * self.spec_width() + x < self.spec_data().len(),
    {
        assert(y * self.spec_width() + x < self.spec_width() as int * self.spec_height() as int) by (nonlinear_arith)
            requires
                x < self.spec_width(),
                y < self.spec_height(),
        ;
        assert(0 <= y * self.spec_width()) by (nonlinear_arith);
    }

    /// Reading a place after a write to a place gives the written value where
    /// the two places are the same, and what was there before elsewhere.
    pub proof fn lemma_read_after_write(&self, x: usize, y: usize, value: T, x2: usize, y2: usize)
        requires
            self.wf(),
            x < self.spec_width(),
            y < self.spec_height(),
            x2 < self.spec_width(),
            y2 < self.spec_height(),
        ensures
            self.spec_data().update(y * self.spec_width() + x, Some(value))[y2 * self.spec_width() + x2] == if x2
                == x && y2 == y {
                Some(value)
            } else {
                self.spec_data()[y2 * self.spec_width() + x2]
            },
    {
        let w = self.spec_width() as int;
        self.lemma_cell_count(x, y);
        self.lemma_cell_count(x2, y2);
        if !(x2 == x && y2 == y) {
            assert(y2 * w + x2 != y * w + x) by (nonlinear_arith)
                requires
                    x < w,
                    x2 < w,
                    0 <= x,
                    0 <= x2,
                    0 <= y,
                    0 <= y2,
                    !(x2 == x && y2 == y),
            ;
        }
    }

    /// Empties every cell.
    pub fn clear(&mut self)
        ensures
            final(self).spec_width() == old(self).spec_width(),
            final(self).spec_height() == old(self).spec_height(),
            final(self).spec_data() == Seq::new(old(self).spec_data().len(), |i: int| None::<T>),
            old(self).wf() ==> final(self).wf(),
    {
        let n = self.data.len();
        let mut i: usize = 0;
        while i < n
            invariant
                i <= n,
                n == self.data@.len(),
                n == old(self).data@.len(),
                self.width == old(self).width,
                self.height == old(self).height,
                forall|k: int| 0 <= k < i ==> self.data@[k] == None::<T>,
            decreases n - i,
        {
            self.data.set(i, None);
            i = i + 1;
        }
        assert(self.data@ =~= Seq::new(n as nat, |i: int| None::<T>));
    }
}

} // verus!

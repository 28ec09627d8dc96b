//! A fixed-size two-dimensional table of unsigned integers with bounds-checked
//! cell access by (row, column), stored row-major in one contiguous vector.

use vstd::prelude::*;

verus! {

/// A (row, column) pair that selects one cell of a matrix.
pub type Selector = (usize, usize);

/// A dense `width` x `height` table of unsigned integers. Cell (row, col) is
/// stored at linear index `row * width + col` of the backing vector.
pub struct Matrix {
    data: Vec<usize>,
    width: usize,
    height: usize,
}

impl Matrix {
    /// The backing vector holds exactly `width * height` cells.
    pub closed spec fn wf(&self) -> bool {
        self.data@.len() == self.spec_width() * self.spec_height()
    }

    /// Width (number of columns) as a mathematical integer.
    pub closed spec fn spec_width(&self) -> int {
        self.width as int
    }

    /// Height (number of rows) as a mathematical integer.
    pub closed spec fn spec_height(&self) -> int {
        self.height as int
    }

    /// A (row, column) selector addresses a cell exactly when both
    /// coordinates are strictly inside the table's dimensions.
    pub open spec fn in_bounds(&self, row: int, col: int) -> bool {
        0 <= row < self.spec_height() && 0 <= col < self.spec_width()
    }

    /// Linear index of cell (row, col) in the row-major backing vector.
    pub open spec fn index_of(&self, row: int, col: int) -> int {
        row * self.spec_width() + col
    }

    /// Value currently stored in cell (row, col).
    pub closed spec fn cell(&self, row: int, col: int) -> usize {
        self.data@[self.index_of(row, col)]
    }

    /// Create a `width` x `height` matrix with every cell set to zero.
    pub fn new(width: usize, height: usize) -> (m: Matrix)
        requires
            width * height <= usize::MAX,
        ensures
            m.wf(),
            m.spec_width() == width,
            m.spec_height() == height,
            forall|row: int, col: int| m.in_bounds(row, col) ==> #[trigger] m.cell(row, col) == 0,
    {
        let count = width * height;
        let mut data: Vec<usize> = Vec::new();
        let mut i: usize = 0;
        while i < count
            invariant
                i <= count,
                data@.len() == i,
                forall|k: int| 0 <= k < i ==> data@[k] == 0,
            decreases count - i,
        {
            data.push(0);
            i = i + 1;
        }
        let m = Matrix { data, width, height };
        proof {
            assert forall|row: int, col: int| m.in_bounds(row, col) implies #[trigger] m.cell(
                row,
                col,
            ) == 0 by {
                lemma_row_major_in_range(m.spec_width(), m.spec_height(), row, col);
            }
        }
        m
    }

    /// Raw linear index for the given selector, or `None` when the selector
    /// addresses no cell of this matrix.
    pub fn get_index(&self, selector: Selector) -> (r: Option<usize>)
        requires
            self.wf(),
        ensures
            self.in_bounds(selector.0 as int, selector.1 as int) ==> r == Some(
                self.index_of(selector.0 as int, selector.1 as int) as usize,
            ),
            !self.in_bounds(selector.0 as int, selector.1 as int) ==> r is None,
    {
        let (row, col) = selector;
        if row < self.height && col < self.width {
            // A vector's length fits the size type, which bounds the index.
            let count = self.data.len();
            proof {
                lemma_row_major_in_range(self.spec_width(), self.spec_height(), row as int, col as int);
                assert((row as int) * self.spec_width() + (col as int) < count);
            }
            Some(row * self.width + col)
        } else {
            None
        }
    }

    /// Read-only reference to the cell addressed by the selector, or `None`
    /// when the selector is out of range.
    pub fn get(&self, selector: Selector) -> (r: Option<&usize>)
        requires
            self.wf(),
        ensures
            self.in_bounds(selector.0 as int, selector.1 as int) ==> r is Some && *r.unwrap()
                == self.cell(selector.0 as int, selector.1 as int),
            !self.in_bounds(selector.0 as int, selector.1 as int) ==> r is None,
    {
        // A vector's length fits the size type, which bounds the index.
        let count = self.data.len();
        match self.get_index(selector) {
            Some(index) => {
                proof {
                    assert(self.data@.len() == count);
                    lemma_row_major_in_range(
                        self.spec_width(),
                        self.spec_height(),
                        selector.0 as int,
                        selector.1 as int,
                    );
                }
                Some(&self.data[index])
            },
            None => None,
        }
    }

    /// Mutable reference to the cell addressed by the selector, or `None`
    /// when the selector is out of range. Writing through the reference
    /// changes that cell and nothing else.
    pub fn get_mut(&mut self, selector: Selector) -> (r: Option<&mut usize>)
        requires
            old(self).wf(),
        ensures
            final(self).wf(),
            final(self).spec_width() == old(self).spec_width(),
            final(self).spec_height() == old(self).spec_height(),
            old(self).in_bounds(selector.0 as int, selector.1 as int) ==> r is Some && *r.unwrap()
                == old(self).cell(selector.0 as int, selector.1 as int) && final(self).cell(
                selector.0 as int,
                selector.1 as int,
            ) == *final(r.unwrap()) && (forall|row: int, col: int|
                old(self).in_bounds(row, col) && !(row == selector.0 as int && col
                    == selector.1 as int) ==> #[trigger] final(self).cell(row, col) == old(
                    self,
                ).cell(row, col)),
            !old(self).in_bounds(selector.0 as int, selector.1 as int) ==> r is None && *final(self)
                == *old(self),
    {
        let ghost row = selector.0 as int;
        let ghost col = selector.1 as int;
        // A vector's length fits the size type, which bounds the index.
        let count = self.data.len();
        proof {
            assert(self.data@.len() == count);
        }
        match self.get_index(selector) {
            Some(index) => {
                proof {
                    lemma_row_major_in_range(self.spec_width(), self.spec_height(), row, col);
                    assert forall|i: int, j: int|
                        old(self).in_bounds(i, j) && !(i == row && j == col) implies old(
                        self,
                    ).index_of(i, j) != old(self).index_of(row, col) by {
                        lemma_row_major_distinct(
                            old(self).spec_width(),
                            old(self).spec_height(),
                            i,
                            j,
                            row,
                            col,
                        );
                    }
                    assert forall|i: int, j: int|
                        old(self).in_bounds(i, j) implies 0 <= old(self).index_of(i, j) < old(
                        self,
                    ).data@.len() by {
                        lemma_row_major_in_range(
                            old(self).spec_width(),
                            old(self).spec_height(),
                            i,
                            j,
                        );
                    }
                }
                Some(&mut self.data[index])
            },
            None => None,
        }
    }

    /// Width (number of columns) of the matrix.
    pub fn width(&self) -> (r: usize)
        ensures
            r == self.spec_width(),
    {
        self.width
    }

    /// Height (number of rows) of the matrix.
    pub fn height(&self) -> (r: usize)
        ensures
            r == self.spec_height(),
    {
        self.height
    }

    /// Value of the cell addressed by the selector. The caller must have
    /// established that the selector is in range; with that guarantee checked
    /// statically, no failure path is left at run time.
    pub fn at(&self, selector: Selector) -> (r: usize)
        requires
            self.wf(),
            self.in_bounds(selector.0 as int, selector.1 as int),
        ensures
            r == self.cell(selector.0 as int, selector.1 as int),
    {
        *self.get(selector).unwrap()
    }

    /// Overwrite the cell addressed by the selector. The caller must have
    /// established that the selector is in range; all other cells and the
    /// dimensions are left unchanged.
    pub fn set(&mut self, selector: Selector, value: usize)
        requires
            old(self).wf(),
            old(self).in_bounds(selector.0 as int, selector.1 as int),
        ensures
            final(self).wf(),
            final(self).spec_width() == old(self).spec_width(),
            final(self).spec_height() == old(self).spec_height(),
            final(self).cell(selector.0 as int, selector.1 as int) == value,
            forall|row: int, col: int|
                old(self).in_bounds(row, col) && !(row == selector.0 as int && col
                    == selector.1 as int) ==> #[trigger] final(self).cell(row, col) == old(
                    self,
                ).cell(row, col),
    {
        match self.get_mut(selector) {
            Some(cell) => {
                *cell = value;
            },
            None => {},
        }
    }
}

/// Distinct in-range coordinates map to distinct row-major indices.
proof fn lemma_row_major_distinct(width: int, height: int, r1: int, c1: int, r2: int, c2: int)
    requires
        0 <= r1 < height,
        0 <= c1 < width,
        0 <= r2 < height,
        0 <= c2 < width,
        !(r1 == r2 && c1 == c2),
    ensures
        r1 * width + c1 != r2 * width + c2,
{
    assert(r1 * width + c1 != r2 * width + c2) by (nonlinear_arith)
        requires
            0 <= r1 < height,
            0 <= c1 < width,
            0 <= r2 < height,
            0 <= c2 < width,
            !(r1 == r2 && c1 == c2),
    ;
}

/// A row-major index built from in-range coordinates lands inside the table.
proof fn lemma_row_major_in_range(width: int, height: int, row: int, col: int)
    requires
        0 <= row < height,
        0 <= col < width,
    ensures
        0 <= row * width + col < width * height,
{
    assert(row * width + col < width * height) by (nonlinear_arith)
        requires
            0 <= row < height,
            0 <= col < width,
    ;
    assert(row * width >= 0) by (nonlinear_arith)
        requires
            0 <= row,
            0 <= width,
    ;
}

} // verus!

//! Grids: the row-major mapping of columns and rows to the indices of an
//! array, and the operations on single cells, rows, columns and the whole
//! grid.
use crate::array::{added, filled, Array};
use crate::error::Error;
use crate::graphics::{rect_added, Graphics2D};
use crate::utility::Wrapping;
use vstd::prelude::*;

verus! {

/// A grid of `width` by `height` cells laid row by row over the first
/// `width * height` cells of an [`Array`]. The cell in column `x` of row `y`
/// is the cell of the array at index `x + y * width`.
#[derive(Debug)]
pub struct Table<'a, T> {
    array: Array<'a, T>,
    width: usize,
    height: usize,
    bound: usize,
}

/// The index in a row-major buffer of the cell in column `x` of row `y`.
pub open spec fn cell_index(width: nat, x: int, y: int) -> int {
    x + y * width
}

/// What laying a grid of `width` by `height` over a buffer of `len` cells
/// answers: a side of zero is `InvalidSize`, a cell count that does not fit
/// in `usize` is `ArithmeticOverflow`, a buffer with fewer cells than the
/// grid has is `BufferTooSmall`.
pub open spec fn shape_check(len: nat, width: nat, height: nat) -> Result<(), Error> {
    if width == 0 || height == 0 {
        Err(Error::InvalidSize)
    } else if width * height > usize::MAX {
        Err(Error::ArithmeticOverflow)
    } else if len < width * height {
        Err(Error::BufferTooSmall)
    } else {
        Ok(())
    }
}

/// The column of the cell at `index` of a row-major buffer.
pub open spec fn cell_column(width: nat, index: int) -> int {
    index % (width as int)
}

/// The row of the cell at `index` of a row-major buffer.
pub open spec fn cell_row(width: nat, index: int) -> int {
    index / (width as int)
}

/// Within a grid, a cell's index lies below the cell count, and the column
/// and the row of that index are the cell's own.
pub proof fn lemma_cell_index(width: nat, height: nat, x: int, y: int)
    requires
        0 <= x < width,
        0 <= y < height,
    ensures
        0 <= cell_index(width, x, y) < width * height,
        cell_column(width, cell_index(width, x, y)) == x,
        cell_row(width, cell_index(width, x, y)) == y,
        y * width + width <= width * height,
{
    let w = width as int;
    assert(y * w + w <= height * w) by (nonlinear_arith)
        requires
            0 <= y < height,
            0 < w,
    ;
    vstd::arithmetic::div_mod::lemma_fundamental_div_mod_converse(x + y * w, w, y, x);
}

/// An index below the cell count of a grid is that of the cell in its column
/// and its row, and both lie within the grid.
pub proof fn lemma_cell_of_index(width: nat, height: nat, index: int)
    requires
        0 <= index < width * height,
    ensures
        0 <= cell_column(width, index) < width,
        0 <= cell_row(width, index) < height,
        cell_index(width, cell_column(width, index), cell_row(width, index)) == index,
{
    let w = width as int;
    vstd::arithmetic::div_mod::lemma_fundamental_div_mod(index, w);
    let q = index / w;
    let r = index % w;
    assert(0 <= q < height) by (nonlinear_arith)
        requires
            0 <= w * q + r < w * height,
            0 <= r < w,
            0 < w,
    ;
}

/// The cells of a grid and the indices below its cell count correspond one
/// to one: every cell has an index below the count, two different cells
/// have different indices, and every index below the count is that of a
/// cell of the grid.
pub proof fn lemma_cell_index_bijective(width: nat, height: nat)
    ensures
        forall|x: int, y: int|
            0 <= x < width && 0 <= y < height ==> 0 <= #[trigger] cell_index(width, x, y) < width
                * height,
        forall|x1: int, y1: int, x2: int, y2: int|
            0 <= x1 < width && 0 <= y1 < height && 0 <= x2 < width && 0 <= y2 < height
                && #[trigger] cell_index(width, x1, y1) == #[trigger] cell_index(width, x2, y2)
                ==> x1 == x2 && y1 == y2,
        forall|index: int|
            0 <= index < width * height ==> {
                &&& 0 <= #[trigger] cell_column(width, index) < width
                &&& 0 <= cell_row(width, index) < height
                &&& cell_index(width, cell_column(width, index), cell_row(width, index)) == index
            },
{
    assert forall|x: int, y: int| 0 <= x < width && 0 <= y < height implies 0
        <= #[trigger] cell_index(width, x, y) < width * height by {
        lemma_cell_index(width, height, x, y);
    }
    assert forall|x1: int, y1: int, x2: int, y2: int|
        0 <= x1 < width && 0 <= y1 < height && 0 <= x2 < width && 0 <= y2 < height
            && #[trigger] cell_index(width, x1, y1) == #[trigger] cell_index(
            width,
            x2,
            y2,
        ) implies x1 == x2 && y1 == y2 by {
        lemma_cell_index(width, height, x1, y1);
        lemma_cell_index(width, height, x2, y2);
    }
    assert forall|index: int| 0 <= index < width * height implies {
        &&& 0 <= #[trigger] cell_column(width, index) < width
        &&& 0 <= cell_row(width, index) < height
        &&& cell_index(width, cell_column(width, index), cell_row(width, index)) == index
    } by {
        lemma_cell_of_index(width, height, index);
    }
}

impl<'a, T> View for Table<'a, T> {
    type V = Seq<T>;

    /// The cells of the array under the grid, in index order. The grid's own
    /// cells are the first `width * height` of them.
    closed spec fn view(&self) -> Seq<T> {
        self.array@
    }
}

impl<'a, T> Table<'a, T> {
    /// The number of columns.
    pub closed spec fn spec_width(&self) -> nat {
        self.width as nat
    }

    /// The number of rows.
    pub closed spec fn spec_height(&self) -> nat {
        self.height as nat
    }

    /// Whether the array under the grid is a view.
    pub closed spec fn is_view(&self) -> bool {
        self.array.is_view()
    }

    /// The borrowed cells that the array under the grid writes through, where
    /// that array is a view.
    pub closed spec fn lender(&self) -> &mut [T] {
        self.array.lender()
    }

    /// The invariant of every grid: both sides are non-zero, and the array
    /// under it is well formed and has a cell for each cell of the grid.
    pub closed spec fn wf(&self) -> bool {
        &&& self.array.wf()
        &&& self.width > 0
        &&& self.height > 0
        &&& self.bound == self.width * self.height
        &&& self.bound <= self.array@.len()
    }

    /// The cell in column `x` of row `y`.
    pub open spec fn cell(&self, x: int, y: int) -> T {
        self@[cell_index(self.spec_width(), x, y)]
    }

    /// Whether this grid is well formed and has the sides of `before`, and
    /// like it lies over a view or over an array that owns its cells.
    pub open spec fn shaped_like(&self, before: &Self) -> bool {
        &&& self.wf()
        &&& self.spec_width() == before.spec_width()
        &&& self.spec_height() == before.spec_height()
        &&& self.is_view() == before.is_view()
    }

    /// A well-formed grid has sides that are not zero and a cell count that
    /// the array under it can hold.
    pub proof fn lemma_wf(&self)
        requires
            self.wf(),
        ensures
            self.spec_width() > 0,
            self.spec_height() > 0,
            self.spec_width() * self.spec_height() <= self@.len(),
            self@.len() <= usize::MAX,
    {
        self.array.lemma_wf();
    }

    /// Once a grid over a view is no longer used, the cells that the view
    /// borrowed hold what the grid's array held last.
    pub proof fn lemma_view_returns(self)
        requires
            has_resolved(self),
            self.is_view(),
        ensures
            final(self.lender())@ == self@,
    {
        self.array.lemma_view_returns();
    }

    /// Lays a grid of `width` by `height` over `array`. The array may have
    /// more cells than the grid; the grid then never touches the others.
    ///
    /// Refused, in this order: a side of zero as `InvalidSize`, a cell count
    /// `width * height` that does not fit in `usize` as `ArithmeticOverflow`,
    /// an array with fewer cells than that as `BufferTooSmall`.
    pub fn new(array: Array<'a, T>, width: usize, height: usize) -> (r: Result<Table<'a, T>, Error>)
        requires
            array.wf(),
        ensures
            match r {
                Ok(table) => {
                    &&& shape_check(array@.len(), width as nat, height as nat) is Ok
                    &&& table.wf()
                    &&& table@ == array@
                    &&& table.spec_width() == width
                    &&& table.spec_height() == height
                    &&& table.is_view() == array.is_view()
                    &&& table.lender() == array.lender()
                },
                Err(e) => {
                    &&& shape_check(array@.len(), width as nat, height as nat) == Err::<
                        (),
                        Error,
                    >(e)
                    &&& array.is_view() ==> final(array.lender())@ == array@
                },
            },
    {
        if width == 0 || height == 0 {
            proof {
                if array.is_view() {
                    array.lemma_view_returns();
                }
            }
            return Err(Error::InvalidSize);
        }
        let bound: usize = match width.checked_mul(height) {
            Some(bound) => bound,
            None => {
                proof {
                    if array.is_view() {
                        array.lemma_view_returns();
                    }
                }
                return Err(Error::ArithmeticOverflow);
            },
        };
        if array.len() < bound {
            proof {
                if array.is_view() {
                    array.lemma_view_returns();
                }
            }
            return Err(Error::BufferTooSmall);
        }
        Ok(Table { array, width, height, bound })
    }

    /// The number of columns.
    pub fn get_width(&self) -> (width: usize)
        requires
            self.wf(),
        ensures
            width == self.spec_width(),
            width > 0,
    {
        self.width
    }

    /// The number of rows.
    pub fn get_height(&self) -> (height: usize)
        requires
            self.wf(),
        ensures
            height == self.spec_height(),
            height > 0,
    {
        self.height
    }

    /// The array index of the cell in column `x` of row `y`, both of which
    /// the caller has checked.
    pub fn unchecked_index_for(&self, x: usize, y: usize) -> (index: usize)
        requires
            self.wf(),
            x < self.spec_width(),
            y < self.spec_height(),
        ensures
            index == cell_index(self.spec_width(), x as int, y as int),
            index < self.spec_width() * self.spec_height(),
            index < self@.len(),
    {
        proof {
            lemma_cell_index(self.width as nat, self.height as nat, x as int, y as int);
        }
        x + y * self.width
    }

    /// The array index of the cell in column `x` of row `y`, or a refusal of
    /// a column or row that the grid does not have.
    pub fn index_for(&self, x: usize, y: usize) -> (r: Result<usize, Error>)
        requires
            self.wf(),
        ensures
            match r {
                Ok(index) => {
                    &&& x < self.spec_width()
                    &&& y < self.spec_height()
                    &&& index == cell_index(self.spec_width(), x as int, y as int)
                    &&& index < self.spec_width() * self.spec_height()
                    &&& index < self@.len()
                },
                Err(e) => (x >= self.spec_width() || y >= self.spec_height()) && e
                    == Error::IndexOutOfBounds,
            },
    {
        if x >= self.width || y >= self.height {
            return Err(Error::IndexOutOfBounds);
        }
        Ok(self.unchecked_index_for(x, y))
    }

    /// Writes `value` to the cell in column `x` of row `y`, both of which the
    /// caller has checked.
    pub fn set_unchecked(&mut self, x: usize, y: usize, value: T)
        requires
            old(self).wf(),
            x < old(self).spec_width(),
            y < old(self).spec_height(),
        ensures
            final(self)@ == old(self)@.update(
                cell_index(old(self).spec_width(), x as int, y as int),
                value,
            ),
            final(self).shaped_like(old(self)),
            final(final(self).lender())@ == final(old(self).lender())@,
    {
        let index: usize = self.unchecked_index_for(x, y);
        self.array.set_unchecked(index, value);
    }

    /// Writes `value` to the cell in column `x` of row `y`, or refuses a
    /// column or row that the grid does not have and writes nothing.
    pub fn set(&mut self, x: usize, y: usize, value: T) -> (r: Result<(), Error>)
        requires
            old(self).wf(),
        ensures
            match r {
                Ok(()) => {
                    &&& x < old(self).spec_width()
                    &&& y < old(self).spec_height()
                    &&& final(self)@ == old(self)@.update(
                        cell_index(old(self).spec_width(), x as int, y as int),
                        value,
                    )
                },
                Err(e) => {
                    &&& x >= old(self).spec_width() || y >= old(self).spec_height()
                    &&& e == Error::IndexOutOfBounds
                    &&& final(self)@ == old(self)@
                },
            },
            final(self).shaped_like(old(self)),
            final(final(self).lender())@ == final(old(self).lender())@,
    {
        let index: usize = self.index_for(x, y)?;
        self.array.set_unchecked(index, value);
        Ok(())
    }

    /// A reference to the cell in column `x` of row `y`, both of which the
    /// caller has checked.
    pub fn get_unchecked_ref(&self, x: usize, y: usize) -> (cell: &T)
        requires
            self.wf(),
            x < self.spec_width(),
            y < self.spec_height(),
        ensures
            *cell == self.cell(x as int, y as int),
    {
        self.array.get_unchecked_ref(self.unchecked_index_for(x, y))
    }

    /// A reference to the cell in column `x` of row `y`, or a refusal of a
    /// column or row that the grid does not have.
    pub fn get_ref(&self, x: usize, y: usize) -> (r: Result<&T, Error>)
        requires
            self.wf(),
        ensures
            match r {
                Ok(cell) => x < self.spec_width() && y < self.spec_height() && *cell == self.cell(
                    x as int,
                    y as int,
                ),
                Err(e) => (x >= self.spec_width() || y >= self.spec_height()) && e
                    == Error::IndexOutOfBounds,
            },
    {
        let index: usize = self.index_for(x, y)?;
        Ok(self.array.get_unchecked_ref(index))
    }

    /// A mutable reference to the cell in column `x` of row `y`, both of
    /// which the caller has checked. What is written through it is written
    /// to the cell.
    pub fn get_unchecked_mut_ref(&mut self, x: usize, y: usize) -> (cell: &mut T)
        requires
            old(self).wf(),
            x < old(self).spec_width(),
            y < old(self).spec_height(),
        ensures
            *cell == old(self).cell(x as int, y as int),
            final(self)@ == old(self)@.update(
                cell_index(old(self).spec_width(), x as int, y as int),
                *final(cell),
            ),
            final(self).shaped_like(old(self)),
            final(final(self).lender())@ == final(old(self).lender())@,
    {
        let index: usize = self.unchecked_index_for(x, y);
        self.array.get_unchecked_mut_ref(index)
    }

    /// A mutable reference to the cell in column `x` of row `y`, or a refusal
    /// of a column or row that the grid does not have.
    pub fn get_mut_ref(&mut self, x: usize, y: usize) -> (r: Result<&mut T, Error>)
        requires
            old(self).wf(),
        ensures
            match r {
                Ok(cell) => {
                    &&& x < old(self).spec_width()
                    &&& y < old(self).spec_height()
                    &&& *cell == old(self).cell(x as int, y as int)
                    &&& final(self)@ == old(self)@.update(
                        cell_index(old(self).spec_width(), x as int, y as int),
                        *final(cell),
                    )
                },
                Err(e) => {
                    &&& x >= old(self).spec_width() || y >= old(self).spec_height()
                    &&& e == Error::IndexOutOfBounds
                    &&& final(self)@ == old(self)@
                },
            },
            final(self).shaped_like(old(self)),
            final(final(self).lender())@ == final(old(self).lender())@,
    {
        let index: usize = self.index_for(x, y)?;
        Ok(self.array.get_unchecked_mut_ref(index))
    }
}

/// `cells` with `value` in every cell of row `y` of a grid `width` wide.
pub open spec fn row_filled<T>(cells: Seq<T>, width: nat, y: int, value: T) -> Seq<T> {
    filled(cells, y * width, width as int, value)
}

/// `cells` with `value` in the cell of column `x` in each of the first
/// `height` rows of a grid `width` wide.
pub open spec fn column_filled<T>(cells: Seq<T>, width: nat, height: nat, x: int, value: T) -> Seq<
    T,
> {
    Seq::new(
        cells.len(),
        |i: int|
            if i < width * height && cell_column(width, i) == x {
                value
            } else {
                cells[i]
            },
    )
}

/// Filling column `x` down to row `y` is filling it down to the row before
/// and then setting the cell in row `y`.
proof fn lemma_column_filled_step<T>(cells: Seq<T>, width: nat, y: nat, x: int, value: T)
    requires
        0 <= x < width,
        width * (y + 1) <= cells.len(),
    ensures
        column_filled(cells, width, y + 1, x, value) == column_filled(
            cells,
            width,
            y,
            x,
            value,
        ).update(cell_index(width, x, y as int), value),
{
    let w = width as int;
    let before = column_filled(cells, width, y, x, value);
    let after = column_filled(cells, width, y + 1, x, value);
    assert(w * (y + 1) == w * y + w) by (nonlinear_arith);
    assert(y * w == w * y) by (nonlinear_arith);
    assert forall|i: int| 0 <= i < cells.len() implies after[i] == before.update(
        cell_index(width, x, y as int),
        value,
    )[i] by {
        if w * y <= i < w * (y + 1) {
            lemma_cell_of_index(width, y + 1, i);
            let row = cell_row(width, i);
            assert(row == y) by (nonlinear_arith)
                requires
                    0 <= row < y + 1,
                    w * y <= i,
                    i == cell_column(width, i) + row * w,
                    0 <= cell_column(width, i) < w,
            ;
        }
    }
}

/// Filling row `y` of a grid gives every cell of that row the value and
/// leaves every other cell of the grid, and every cell that the buffer has
/// beyond the grid, as it was.
pub proof fn lemma_row_filled<T>(cells: Seq<T>, width: nat, height: nat, y: int, value: T)
    requires
        width * height <= cells.len(),
        0 <= y < height,
    ensures
        row_filled(cells, width, y, value).len() == cells.len(),
        forall|x: int, row: int|
            0 <= x < width && 0 <= row < height ==> row_filled(cells, width, y, value)[#[trigger] cell_index(
                width,
                x,
                row,
            )] == if row == y {
                value
            } else {
                cells[cell_index(width, x, row)]
            },
        forall|i: int|
            width * height <= i < cells.len() ==> row_filled(cells, width, y, value)[i] == cells[i],
{
    let w = width as int;
    assert forall|x: int, row: int| 0 <= x < width && 0 <= row < height implies row_filled(
        cells,
        width,
        y,
        value,
    )[#[trigger] cell_index(width, x, row)] == if row == y {
        value
    } else {
        cells[cell_index(width, x, row)]
    } by {
        lemma_cell_index(width, height, x, row);
        if row < y {
            assert(x + row * w < y * w) by (nonlinear_arith)
                requires
                    0 <= x < w,
                    0 <= row < y,
            ;
        } else if row > y {
            assert(x + row * w >= y * w + w) by (nonlinear_arith)
                requires
                    0 <= x < w,
                    row > y,
            ;
        }
    }
    assert forall|i: int| width * height <= i < cells.len() implies row_filled(
        cells,
        width,
        y,
        value,
    )[i] == cells[i] by {
        if width > 0 {
            lemma_cell_index(width, height, 0, y);
        }
    }
}

/// Filling column `x` of a grid gives every cell of that column the value
/// and leaves every other cell of the grid, and every cell that the buffer
/// has beyond the grid, as it was.
pub proof fn lemma_column_filled<T>(cells: Seq<T>, width: nat, height: nat, x: int, value: T)
    requires
        width * height <= cells.len(),
        0 <= x < width,
    ensures
        column_filled(cells, width, height, x, value).len() == cells.len(),
        forall|column: int, y: int|
            0 <= column < width && 0 <= y < height ==> column_filled(
                cells,
                width,
                height,
                x,
                value,
            )[#[trigger] cell_index(width, column, y)] == if column == x {
                value
            } else {
                cells[cell_index(width, column, y)]
            },
        forall|i: int|
            width * height <= i < cells.len() ==> column_filled(cells, width, height, x, value)[i]
                == cells[i],
{
    assert forall|column: int, y: int| 0 <= column < width && 0 <= y < height implies column_filled(
        cells,
        width,
        height,
        x,
        value,
    )[#[trigger] cell_index(width, column, y)] == if column == x {
        value
    } else {
        cells[cell_index(width, column, y)]
    } by {
        lemma_cell_index(width, height, column, y);
    }
}

impl<'a, T: Copy> Table<'a, T> {
    /// A copy of the cell in column `x` of row `y`, both of which the caller
    /// has checked.
    pub fn get_unchecked(&self, x: usize, y: usize) -> (value: T)
        requires
            self.wf(),
            x < self.spec_width(),
            y < self.spec_height(),
        ensures
            value == self.cell(x as int, y as int),
    {
        self.array.get_unchecked(self.unchecked_index_for(x, y))
    }

    /// A copy of the cell in column `x` of row `y`, or a refusal of a column
    /// or row that the grid does not have.
    pub fn get(&self, x: usize, y: usize) -> (r: Result<T, Error>)
        requires
            self.wf(),
        ensures
            match r {
                Ok(value) => x < self.spec_width() && y < self.spec_height() && value == self.cell(
                    x as int,
                    y as int,
                ),
                Err(e) => (x >= self.spec_width() || y >= self.spec_height()) && e
                    == Error::IndexOutOfBounds,
            },
    {
        let index: usize = self.index_for(x, y)?;
        Ok(self.array.get_unchecked(index))
    }

    /// Copies of the cells, row by row from the first row down, each row
    /// from its first column on.
    pub fn rows(&self) -> (rows: Vec<Vec<T>>)
        requires
            self.wf(),
        ensures
            rows@.len() == self.spec_height(),
            forall|y: int|
                0 <= y < self.spec_height() ==> (#[trigger] rows@[y])@.len() == self.spec_width(),
            forall|x: int, y: int|
                0 <= x < self.spec_width() && 0 <= y < self.spec_height() ==> rows@[y]@[x]
                    == #[trigger] self.cell(x, y),
    {
        let mut rows: Vec<Vec<T>> = Vec::with_capacity(self.height);
        let mut y: usize = 0;
        while y < self.height
            invariant
                self.wf(),
                y <= self.height,
                rows@.len() == y,
                forall|j: int| 0 <= j < y ==> (#[trigger] rows@[j])@.len() == self.spec_width(),
                forall|i: int, j: int|
                    0 <= i < self.spec_width() && 0 <= j < y ==> rows@[j]@[i]
                        == #[trigger] self.cell(i, j),
            decreases self.height - y,
        {
            let mut row: Vec<T> = Vec::with_capacity(self.width);
            let mut x: usize = 0;
            while x < self.width
                invariant
                    self.wf(),
                    y < self.height,
                    x <= self.width,
                    row@.len() == x,
                    forall|i: int| 0 <= i < x ==> row@[i] == #[trigger] self.cell(i, y as int),
                decreases self.width - x,
            {
                row.push(self.get_unchecked(x, y));
                x += 1;
            }
            rows.push(row);
            y += 1;
        }
        rows
    }

    /// Writes `value` to every cell of row `y`, which the caller has checked,
    /// and to no other cell.
    pub fn set_unchecked_row(&mut self, y: usize, value: T)
        requires
            old(self).wf(),
            y < old(self).spec_height(),
        ensures
            final(self)@ == row_filled(old(self)@, old(self).spec_width(), y as int, value),
            final(self).shaped_like(old(self)),
            final(final(self).lender())@ == final(old(self).lender())@,
    {
        proof {
            lemma_cell_index(self.width as nat, self.height as nat, 0, y as int);
        }
        let start_index: usize = self.unchecked_index_for(0, y);
        let width: usize = self.width;
        self.array.fill(start_index, width, value);
    }

    /// Writes `value` to every cell of row `y` and to no other cell, or
    /// refuses a row that the grid does not have and writes nothing.
    pub fn set_row(&mut self, y: usize, value: T) -> (r: Result<(), Error>)
        requires
            old(self).wf(),
        ensures
            match r {
                Ok(()) => y < old(self).spec_height() && final(self)@ == row_filled(
                    old(self)@,
                    old(self).spec_width(),
                    y as int,
                    value,
                ),
                Err(e) => {
                    &&& y >= old(self).spec_height()
                    &&& e == Error::IndexOutOfBounds
                    &&& final(self)@ == old(self)@
                },
            },
            final(self).shaped_like(old(self)),
            final(final(self).lender())@ == final(old(self).lender())@,
    {
        if y >= self.height {
            return Err(Error::IndexOutOfBounds);
        }
        self.set_unchecked_row(y, value);
        Ok(())
    }

    /// Writes `value` to the cell of column `x` in every row and to no other
    /// cell. The caller has checked `x`.
    pub fn set_unchecked_column(&mut self, x: usize, value: T)
        requires
            old(self).wf(),
            x < old(self).spec_width(),
        ensures
            final(self)@ == column_filled(
                old(self)@,
                old(self).spec_width(),
                old(self).spec_height(),
                x as int,
                value,
            ),
            final(self).shaped_like(old(self)),
            final(final(self).lender())@ == final(old(self).lender())@,
    {
        let ghost before = *self;
        let mut y: usize = 0;
        while y < self.height
            invariant
                before.wf(),
                x < before.spec_width(),
                y <= self.height,
                self.shaped_like(&before),
                self@ == column_filled(before@, before.spec_width(), y as nat, x as int, value),
                final(self.lender())@ == final(before.lender())@,
            decreases self.height - y,
        {
            proof {
                lemma_cell_index(self.width as nat, self.height as nat, x as int, y as int);
                assert(self.width * (y + 1) == y * self.width + self.width) by (nonlinear_arith);
                lemma_column_filled_step(before@, before.spec_width(), y as nat, x as int, value);
            }
            self.set_unchecked(x, y, value);
            y += 1;
        }
    }

    /// Writes `value` to the cell of column `x` in every row and to no other
    /// cell, or refuses a column that the grid does not have and writes
    /// nothing.
    pub fn set_column(&mut self, x: usize, value: T) -> (r: Result<(), Error>)
        requires
            old(self).wf(),
        ensures
            match r {
                Ok(()) => x < old(self).spec_width() && final(self)@ == column_filled(
                    old(self)@,
                    old(self).spec_width(),
                    old(self).spec_height(),
                    x as int,
                    value,
                ),
                Err(e) => {
                    &&& x >= old(self).spec_width()
                    &&& e == Error::IndexOutOfBounds
                    &&& final(self)@ == old(self)@
                },
            },
            final(self).shaped_like(old(self)),
            final(final(self).lender())@ == final(old(self).lender())@,
    {
        if x >= self.width {
            return Err(Error::IndexOutOfBounds);
        }
        self.set_unchecked_column(x, value);
        Ok(())
    }

    /// Writes `value` to every cell of the grid, and to no cell that the
    /// array under it has beyond them.
    pub fn set_all(&mut self, value: T)
        requires
            old(self).wf(),
        ensures
            final(self)@ == filled(
                old(self)@,
                0,
                (old(self).spec_width() * old(self).spec_height()) as int,
                value,
            ),
            final(self).shaped_like(old(self)),
            final(final(self).lender())@ == final(old(self).lender())@,
    {
        let bound: usize = self.bound;
        self.array.fill(0, bound, value);
    }
}

/// Adding to a rectangle down to row `y` is adding to it down to the row
/// before and then to the cells of row `y` between its two columns.
proof fn lemma_rect_added_step<T: Wrapping>(
    cells: Seq<T>,
    width: nat,
    min_x: int,
    min_y: int,
    max_x: int,
    y: int,
    amount: T,
)
    requires
        0 <= min_x <= max_x < width,
        0 <= min_y <= y,
    ensures
        rect_added(
            cells,
            width,
            min_x,
            min_y,
            max_x,
            y,
            |value: T, amount: T| value.wrapping_sum(amount),
            amount,
        ) == added(
            rect_added(
                cells,
                width,
                min_x,
                min_y,
                max_x,
                y - 1,
                |value: T, amount: T| value.wrapping_sum(amount),
                amount,
            ),
            cell_index(width, min_x, y),
            max_x - min_x + 1,
            amount,
        ),
{
    let w = width as int;
    let sum = |value: T, amount: T| value.wrapping_sum(amount);
    let above = rect_added(cells, width, min_x, min_y, max_x, y - 1, sum, amount);
    let whole = rect_added(cells, width, min_x, min_y, max_x, y, sum, amount);
    let start = cell_index(width, min_x, y);
    let stepped = added(above, start, max_x - min_x + 1, amount);
    assert forall|i: int| 0 <= i < cells.len() implies whole[i] == stepped[i] by {
        vstd::arithmetic::div_mod::lemma_fundamental_div_mod(i, w);
        assert(w * (i / w) == (i / w) * w) by (nonlinear_arith);
        if start <= i < start + (max_x - min_x + 1) {
            lemma_cell_index(width, (y + 1) as nat, i - y * w, y);
        }
    }
}

impl<'a, T: Wrapping + Copy> Graphics2D<T> for Table<'a, T> {
    open spec fn sink_wf(&self) -> bool {
        self.wf()
    }

    open spec fn sink_width(&self) -> nat {
        self.spec_width()
    }

    open spec fn sink_height(&self) -> nat {
        self.spec_height()
    }

    open spec fn sink_cells(&self) -> Seq<T> {
        self@
    }

    open spec fn sink_is_view(&self) -> bool {
        self.is_view()
    }

    open spec fn sink_lender(&self) -> &mut [T] {
        self.lender()
    }

    /// A grid adds as its cell type does, wrapping.
    open spec fn sink_sum() -> spec_fn(T, T) -> T {
        |value: T, amount: T| value.wrapping_sum(amount)
    }

    proof fn lemma_sink_wf(&self) {
    }

    fn add_unchecked(&mut self, x: usize, y: usize, amount: T) {
        let index: usize = self.unchecked_index_for(x, y);
        self.array.add_unchecked(index, amount);
    }

    fn add_unchecked_rect(&mut self, min_x: usize, min_y: usize, max_x: usize, max_y: usize, amount: T) {
        let ghost before = *self;
        let ghost sum = Self::sink_sum();
        let count: usize = max_x - min_x + 1;
        let mut y: usize = min_y;
        while y <= max_y
            invariant
                before.wf(),
                min_x <= max_x < before.spec_width(),
                min_y <= y <= max_y + 1,
                max_y < before.spec_height(),
                count == max_x - min_x + 1,
                sum == Self::sink_sum(),
                self.shaped_like(&before),
                final(self.lender())@ == final(before.lender())@,
                self@ == rect_added(
                    before@,
                    before.spec_width(),
                    min_x as int,
                    min_y as int,
                    max_x as int,
                    y - 1,
                    sum,
                    amount,
                ),
            decreases max_y + 1 - y,
        {
            proof {
                lemma_cell_index(self.width as nat, self.height as nat, max_x as int, y as int);
                lemma_rect_added_step(
                    before@,
                    before.spec_width(),
                    min_x as int,
                    min_y as int,
                    max_x as int,
                    y as int,
                    amount,
                );
            }
            let start_index: usize = self.unchecked_index_for(min_x, y);
            self.array.accumulate(start_index, count, amount);
            y += 1;
        }
    }

    fn get_width(&self) -> (width: usize) {
        self.width
    }

    fn get_height(&self) -> (height: usize) {
        self.height
    }
}

} // verus!

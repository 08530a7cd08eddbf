//! Buffers of fixed length: arrays that own their cells, views that borrow
//! the cells of another array, and the operations that read, write, fill
//! and add to cells one at a time or a range at a time.
use crate::error::Error;
use crate::utility::{clamped, Saturating, Wrapping};
use vstd::prelude::*;

verus! {

/// Where the cells of an [`Array`] live: in memory of its own, or in cells
/// borrowed from another array for as long as the borrow lasts.
#[derive(Debug)]
enum Storage<'a, T> {
    Owning(Vec<T>),
    Aliasing(&'a mut [T]),
}

impl<'a, T> Storage<'a, T> {
    spec fn cells(&self) -> Seq<T> {
        match *self {
            Storage::Owning(memory) => memory@,
            Storage::Aliasing(cells) => cells@,
        }
    }

    spec fn lender(&self) -> &mut [T] {
        match *self {
            Storage::Owning(memory) => arbitrary(),
            Storage::Aliasing(cells) => cells,
        }
    }

    fn cells_ref(&self) -> (cells: &[T])
        ensures
            cells@ == self.cells(),
    {
        match self {
            Storage::Owning(memory) => memory.as_slice(),
            Storage::Aliasing(cells) => &**cells,
        }
    }

    fn cells_mut(&mut self) -> (cells: &mut [T])
        ensures
            cells@ == old(self).cells(),
            final(self).cells() == final(cells)@,
            (*final(self) is Aliasing) == (*old(self) is Aliasing),
            final(final(self).lender())@ == final(old(self).lender())@,
    {
        match self {
            Storage::Owning(memory) => memory.as_mut_slice(),
            Storage::Aliasing(cells) => &mut **cells,
        }
    }
}

/// A block of cells of fixed, non-zero length, addressed by index.
///
/// An array either owns its cells or is a view: a handle onto all or part of
/// the cells of another array, made by [`Array::sharing_copy`] or
/// [`Array::sharing_sub_array`]. A view borrows the array it was made from,
/// so the cells outlive every view of them, and whatever is written through
/// the view is found in that array once the view is gone.
#[derive(Debug)]
pub struct Array<'a, T> {
    size: usize,
    storage: Storage<'a, T>,
}

impl<'a, T> View for Array<'a, T> {
    type V = Seq<T>;

    /// The cells of this array, in index order.
    closed spec fn view(&self) -> Seq<T> {
        self.storage.cells()
    }
}

impl<'a, T> Array<'a, T> {
    /// Whether this array is a view: a handle onto cells that it has
    /// borrowed from another array.
    pub closed spec fn is_view(&self) -> bool {
        self.storage is Aliasing
    }

    /// The borrowed cells that a view writes through. Of an array that owns
    /// its cells it says nothing.
    pub closed spec fn lender(&self) -> &mut [T] {
        self.storage.lender()
    }

    /// The invariant of every array: it has at least one cell, and its
    /// recorded length is the number of its cells.
    pub closed spec fn wf(&self) -> bool {
        self.size > 0 && self.size == self@.len()
    }

    /// A well-formed array has at least one cell, and no more than `usize`
    /// counts.
    pub proof fn lemma_wf(&self)
        requires
            self.wf(),
        ensures
            0 < self@.len() <= usize::MAX,
    {
    }

    /// Once a view is no longer used, the cells it borrowed hold what the
    /// view held last.
    pub proof fn lemma_view_returns(self)
        requires
            has_resolved(self),
            self.is_view(),
        ensures
            final(self.lender())@ == self@,
    {
    }

    /// The number of cells.
    pub fn len(&self) -> (n: usize)
        requires
            self.wf(),
        ensures
            n == self@.len(),
            n > 0,
    {
        self.size
    }

    /// Tells whether `index` addresses a cell of this array.
    pub fn check_bound(&self, index: usize) -> (r: Result<(), Error>)
        requires
            self.wf(),
        ensures
            match r {
                Ok(()) => index < self@.len(),
                Err(e) => index >= self@.len() && e == Error::IndexOutOfBounds,
            },
    {
        if index >= self.size {
            Err(Error::IndexOutOfBounds)
        } else {
            Ok(())
        }
    }

    /// A reference to the cell at `index`, which the caller has checked.
    pub fn get_unchecked_ref(&self, index: usize) -> (cell: &T)
        requires
            self.wf(),
            index < self@.len(),
        ensures
            *cell == self@[index as int],
    {
        let cells = self.storage.cells_ref();
        &cells[index]
    }

    /// A reference to the cell at `index`.
    pub fn get_ref(&self, index: usize) -> (r: Result<&T, Error>)
        requires
            self.wf(),
        ensures
            match r {
                Ok(cell) => index < self@.len() && *cell == self@[index as int],
                Err(e) => index >= self@.len() && e == Error::IndexOutOfBounds,
            },
    {
        match self.check_bound(index) {
            Ok(()) => Ok(self.get_unchecked_ref(index)),
            Err(e) => Err(e),
        }
    }

    /// A mutable reference to the cell at `index`, which the caller has
    /// checked. What is written through it is written to the cell.
    pub fn get_unchecked_mut_ref(&mut self, index: usize) -> (cell: &mut T)
        requires
            old(self).wf(),
            index < old(self)@.len(),
        ensures
            *cell == old(self)@[index as int],
            final(self)@ == old(self)@.update(index as int, *final(cell)),
            final(self).wf(),
            final(self).is_view() == old(self).is_view(),
            final(final(self).lender())@ == final(old(self).lender())@,
    {
        let cells = self.storage.cells_mut();
        &mut cells[index]
    }

    /// Writes `value` to the cell at `index`, which the caller has checked.
    pub fn set_unchecked(&mut self, index: usize, value: T)
        requires
            old(self).wf(),
            index < old(self)@.len(),
        ensures
            final(self)@ == old(self)@.update(index as int, value),
            final(self).wf(),
            final(self).is_view() == old(self).is_view(),
            final(final(self).lender())@ == final(old(self).lender())@,
    {
        let cells = self.storage.cells_mut();
        cells[index] = value;
    }

    /// Writes `value` to the cell at `index`, or refuses an index past the
    /// end and writes nothing.
    pub fn set(&mut self, index: usize, value: T) -> (r: Result<(), Error>)
        requires
            old(self).wf(),
        ensures
            match r {
                Ok(()) => index < old(self)@.len() && final(self)@ == old(self)@.update(
                    index as int,
                    value,
                ),
                Err(e) => index >= old(self)@.len() && e == Error::IndexOutOfBounds && final(self)@
                    == old(self)@,
            },
            final(self).wf(),
            final(self).is_view() == old(self).is_view(),
            final(final(self).lender())@ == final(old(self).lender())@,
    {
        match self.check_bound(index) {
            Ok(()) => {
                self.set_unchecked(index, value);
                Ok(())
            },
            Err(e) => Err(e),
        }
    }

    /// A mutable reference to the cell at `index`, or a refusal of an index
    /// past the end.
    pub fn get_mut_ref(&mut self, index: usize) -> (r: Result<&mut T, Error>)
        requires
            old(self).wf(),
        ensures
            match r {
                Ok(cell) => index < old(self)@.len() && *cell == old(self)@[index as int]
                    && final(self)@ == old(self)@.update(index as int, *final(cell)),
                Err(e) => index >= old(self)@.len() && e == Error::IndexOutOfBounds && final(self)@
                    == old(self)@,
            },
            final(self).wf(),
            final(self).is_view() == old(self).is_view(),
            final(final(self).lender())@ == final(old(self).lender())@,
    {
        match self.check_bound(index) {
            Ok(()) => Ok(self.get_unchecked_mut_ref(index)),
            Err(e) => Err(e),
        }
    }

    /// A view of all the cells of this array. The array cannot be used while
    /// the view is; afterwards it holds what the view held last, and is well
    /// formed as before, a view being unable to give back more or fewer
    /// cells than it borrowed.
    pub fn sharing_copy(&mut self) -> (view: Array<'_, T>)
        requires
            old(self).wf(),
        ensures
            view.wf(),
            view@ == old(self)@,
            view.is_view(),
            final(self)@ == final(view.lender())@,
            final(view.lender())@.len() == view@.len() ==> final(self).wf(),
            final(self).is_view() == old(self).is_view(),
            final(final(self).lender())@ == final(old(self).lender())@,
    {
        let size: usize = self.size;
        let cells = self.storage.cells_mut();
        Array { size, storage: Storage::Aliasing(cells) }
    }

    /// A view of the `size` cells from `start` on. The array cannot be used
    /// while the view is; afterwards those cells hold what the view held
    /// last, and the cells around them are as they were.
    ///
    /// A `size` of zero is refused as `InvalidSize`; a range whose last index
    /// `start + size - 1` does not fit in `usize` as `ArithmeticOverflow`;
    /// one whose last index is past the end as `IndexOutOfBounds`.
    pub fn sharing_sub_array(&mut self, start: usize, size: usize) -> (r: Result<
        Array<'_, T>,
        Error,
    >)
        requires
            old(self).wf(),
        ensures
            match r {
                Ok(view) => {
                    &&& size > 0
                    &&& start + size <= old(self)@.len()
                    &&& view.wf()
                    &&& view@ == old(self)@.subrange(start as int, start + size)
                    &&& view.is_view()
                    &&& final(self)@ == old(self)@.subrange(0, start as int)
                        + final(view.lender())@
                        + old(self)@.subrange(start + size, old(self)@.len() as int)
                    &&& final(view.lender())@.len() == view@.len() ==> final(self).wf()
                },
                Err(e) => {
                    &&& size == 0 || start + size > old(self)@.len()
                    &&& e == sub_range_error(old(self)@.len(), start as int, size as int)
                    &&& final(self)@ == old(self)@
                    &&& final(self).wf()
                },
            },
            final(self).is_view() == old(self).is_view(),
            final(final(self).lender())@ == final(old(self).lender())@,
    {
        if size == 0 {
            return Err(Error::InvalidSize);
        }
        let end: usize = last_index(start, size)?;
        self.check_bound(end)?;
        let cells = self.storage.cells_mut();
        let (_, tail) = cells.split_at_mut(start);
        let (window, _) = tail.split_at_mut(size);
        Ok(Array { size, storage: Storage::Aliasing(window) })
    }

    /// A new array of `size` cells that owns them. What the cells hold is
    /// left open. A `size` of zero is refused.
    pub fn create_garbage(size: usize) -> (r: Result<Array<'a, T>, Error>) where T: Default
        ensures
            match r {
                Ok(array) => size > 0 && array.wf() && array@.len() == size && !array.is_view(),
                Err(e) => size == 0 && e == Error::InvalidSize,
            },
    {
        if size == 0 {
            return Err(Error::InvalidSize);
        }
        let mut memory: Vec<T> = Vec::with_capacity(size);
        let mut count: usize = 0;
        while count < size
            invariant
                count <= size,
                memory@.len() == count,
            decreases size - count,
        {
            memory.push(T::default());
            count += 1;
        }
        Ok(Array { size, storage: Storage::Owning(memory) })
    }
}

impl<'a, T: Copy> Array<'a, T> {
    /// A new array of `size` cells that owns them, each holding `value`. A
    /// `size` of zero is refused.
    pub fn create_filled(size: usize, value: T) -> (r: Result<Array<'a, T>, Error>)
        ensures
            match r {
                Ok(array) => size > 0 && array.wf() && array@ == Seq::new(
                    size as nat,
                    |i: int| value,
                ) && !array.is_view(),
                Err(e) => size == 0 && e == Error::InvalidSize,
            },
    {
        if size == 0 {
            return Err(Error::InvalidSize);
        }
        let mut memory: Vec<T> = Vec::with_capacity(size);
        let mut count: usize = 0;
        while count < size
            invariant
                count <= size,
                memory@ == Seq::new(count as nat, |i: int| value),
            decreases size - count,
        {
            memory.push(value);
            count += 1;
        }
        Ok(Array { size, storage: Storage::Owning(memory) })
    }

    /// A copy of the cell at `index`, which the caller has checked.
    pub fn get_unchecked(&self, index: usize) -> (value: T)
        requires
            self.wf(),
            index < self@.len(),
        ensures
            value == self@[index as int],
    {
        let cells = self.storage.cells_ref();
        cells[index]
    }

    /// A copy of the cell at `index`.
    pub fn get(&self, index: usize) -> (r: Result<T, Error>)
        requires
            self.wf(),
        ensures
            match r {
                Ok(value) => index < self@.len() && value == self@[index as int],
                Err(e) => index >= self@.len() && e == Error::IndexOutOfBounds,
            },
    {
        match self.check_bound(index) {
            Ok(()) => Ok(self.get_unchecked(index)),
            Err(e) => Err(e),
        }
    }

    /// Copies of the `length` cells from `start` on, in index order. A range
    /// whose end `start + length` does not fit in `usize` is refused as
    /// `ArithmeticOverflow`, one that ends past the last cell as
    /// `IndexOutOfBounds`.
    pub fn create_vector(&self, start: usize, length: usize) -> (r: Result<Vec<T>, Error>)
        requires
            self.wf(),
        ensures
            match r {
                Ok(vector) => start + length <= self@.len() && vector@ == self@.subrange(
                    start as int,
                    start + length,
                ),
                Err(e) => if start + length > usize::MAX {
                    e == Error::ArithmeticOverflow
                } else {
                    start + length > self@.len() && e == Error::IndexOutOfBounds
                },
            },
    {
        let end: usize = match start.checked_add(length) {
            Some(end) => end,
            None => { return Err(Error::ArithmeticOverflow); },
        };
        if end > self.size {
            return Err(Error::IndexOutOfBounds);
        }
        let cells = self.storage.cells_ref();
        let mut vector: Vec<T> = Vec::with_capacity(length);
        let mut index: usize = start;
        while index < end
            invariant
                start <= index <= end <= cells@.len(),
                vector@ == cells@.subrange(start as int, index as int),
            decreases end - index,
        {
            vector.push(cells[index]);
            index += 1;
        }
        Ok(vector)
    }

    /// Writes `value` to the `count` cells from `start` on, which the caller
    /// has checked to lie within the array.
    pub(crate) fn fill(&mut self, start: usize, count: usize, value: T)
        requires
            old(self).wf(),
            start + count <= old(self)@.len(),
        ensures
            final(self)@ == filled(old(self)@, start as int, count as int, value),
            final(self).wf(),
            final(self).is_view() == old(self).is_view(),
            final(final(self).lender())@ == final(old(self).lender())@,
    {
        let ghost before = self@;
        let cells = self.storage.cells_mut();
        let end: usize = start + count;
        let mut index: usize = start;
        while index < end
            invariant
                start <= index <= end <= before.len(),
                end == start + count,
                cells@ == filled(before, start as int, index - start, value),
            decreases end - index,
        {
            cells[index] = value;
            index += 1;
        }
    }

    /// Writes `value` to the `amount` cells from `start_index` on and leaves
    /// the others as they are. An `amount` of zero changes nothing, wherever
    /// `start_index` lies. A range whose last index does not fit in `usize`
    /// is refused as `ArithmeticOverflow`, one whose last index is past the
    /// end as `IndexOutOfBounds`; a refused call writes nothing.
    pub fn set_some(&mut self, start_index: usize, amount: usize, value: T) -> (r: Result<
        (),
        Error,
    >)
        requires
            old(self).wf(),
        ensures
            r == range_check(old(self)@.len(), start_index as int, amount as int),
            final(self)@ == (if r is Ok {
                filled(old(self)@, start_index as int, amount as int, value)
            } else {
                old(self)@
            }),
            final(self).wf(),
            final(self).is_view() == old(self).is_view(),
            final(final(self).lender())@ == final(old(self).lender())@,
    {
        if amount != 0 {
            let end_index: usize = last_index(start_index, amount)?;
            self.check_bound(end_index)?;
            self.fill(start_index, amount, value);
        }
        Ok(())
    }

    /// Writes `value` to every cell.
    pub fn set_all(&mut self, value: T)
        requires
            old(self).wf(),
        ensures
            final(self)@ == filled(old(self)@, 0, old(self)@.len() as int, value),
            final(self).wf(),
            final(self).is_view() == old(self).is_view(),
            final(final(self).lender())@ == final(old(self).lender())@,
    {
        let size: usize = self.size;
        self.fill(0, size, value);
    }
}

impl<'a, T: Wrapping + Copy> Array<'a, T> {
    /// Adds `amount` to the `count` cells from `start` on, which the caller
    /// has checked to lie within the array.
    pub(crate) fn accumulate(&mut self, start: usize, count: usize, amount: T)
        requires
            old(self).wf(),
            start + count <= old(self)@.len(),
        ensures
            final(self)@ == added(old(self)@, start as int, count as int, amount),
            final(self).wf(),
            final(self).is_view() == old(self).is_view(),
            final(final(self).lender())@ == final(old(self).lender())@,
    {
        let ghost before = self@;
        let cells = self.storage.cells_mut();
        let end: usize = start + count;
        let mut index: usize = start;
        while index < end
            invariant
                start <= index <= end <= before.len(),
                end == start + count,
                cells@ == added(before, start as int, index - start, amount),
            decreases end - index,
        {
            let sum = cells[index].wrapping_add(amount);
            cells[index] = sum;
            index += 1;
        }
    }

    /// Adds `amount` to the cell at `index`, which the caller has checked.
    /// The sum wraps as the cell type does.
    pub fn add_unchecked(&mut self, index: usize, amount: T)
        requires
            old(self).wf(),
            index < old(self)@.len(),
        ensures
            final(self)@ == old(self)@.update(
                index as int,
                old(self)@[index as int].wrapping_sum(amount),
            ),
            final(self).wf(),
            final(self).is_view() == old(self).is_view(),
            final(final(self).lender())@ == final(old(self).lender())@,
    {
        let cells = self.storage.cells_mut();
        let sum = cells[index].wrapping_add(amount);
        cells[index] = sum;
    }

    /// Adds `amount` to the cell at `index`, or refuses an index past the end
    /// and changes nothing.
    pub fn add(&mut self, index: usize, amount: T) -> (r: Result<(), Error>)
        requires
            old(self).wf(),
        ensures
            match r {
                Ok(()) => index < old(self)@.len() && final(self)@ == old(self)@.update(
                    index as int,
                    old(self)@[index as int].wrapping_sum(amount),
                ),
                Err(e) => index >= old(self)@.len() && e == Error::IndexOutOfBounds && final(self)@
                    == old(self)@,
            },
            final(self).wf(),
            final(self).is_view() == old(self).is_view(),
            final(final(self).lender())@ == final(old(self).lender())@,
    {
        match self.check_bound(index) {
            Ok(()) => {
                self.add_unchecked(index, amount);
                Ok(())
            },
            Err(e) => Err(e),
        }
    }

    /// Adds `amount_to_add` to the `amount_of_elements` cells from
    /// `start_index` on. The caller has checked that the range, where it is
    /// not empty and its last index fits in `usize`, lies within the array.
    /// A range whose last index does not fit is still refused, as
    /// `ArithmeticOverflow`, and nothing is changed.
    pub fn add_unchecked_some(
        &mut self,
        start_index: usize,
        amount_of_elements: usize,
        amount_to_add: T,
    ) -> (r: Result<(), Error>)
        requires
            old(self).wf(),
            amount_of_elements != 0 && start_index + amount_of_elements - 1 <= usize::MAX
                ==> start_index + amount_of_elements <= old(self)@.len(),
        ensures
            r == range_check(old(self)@.len(), start_index as int, amount_of_elements as int),
            r is Err ==> r == Err::<(), Error>(Error::ArithmeticOverflow),
            final(self)@ == (if r is Ok {
                added(old(self)@, start_index as int, amount_of_elements as int, amount_to_add)
            } else {
                old(self)@
            }),
            final(self).wf(),
            final(self).is_view() == old(self).is_view(),
            final(final(self).lender())@ == final(old(self).lender())@,
    {
        if amount_of_elements != 0 {
            let _end_index: usize = last_index(start_index, amount_of_elements)?;
            self.accumulate(start_index, amount_of_elements, amount_to_add);
        }
        Ok(())
    }

    /// Adds `amount_to_add` to the `amount_of_elements` cells from
    /// `start_index` on and leaves the others as they are; each sum wraps as
    /// the cell type does. A count of zero changes nothing. A range whose
    /// last index does not fit in `usize` is refused as `ArithmeticOverflow`,
    /// one whose last index is past the end as `IndexOutOfBounds`; a refused
    /// call changes nothing.
    pub fn add_some(
        &mut self,
        start_index: usize,
        amount_of_elements: usize,
        amount_to_add: T,
    ) -> (r: Result<(), Error>)
        requires
            old(self).wf(),
        ensures
            r == range_check(old(self)@.len(), start_index as int, amount_of_elements as int),
            final(self)@ == (if r is Ok {
                added(old(self)@, start_index as int, amount_of_elements as int, amount_to_add)
            } else {
                old(self)@
            }),
            final(self).wf(),
            final(self).is_view() == old(self).is_view(),
            final(final(self).lender())@ == final(old(self).lender())@,
    {
        if amount_of_elements != 0 {
            let end_index: usize = last_index(start_index, amount_of_elements)?;
            self.check_bound(end_index)?;
            self.accumulate(start_index, amount_of_elements, amount_to_add);
        }
        Ok(())
    }

    /// Adds `amount` to every cell; each sum wraps as the cell type does.
    pub fn add_all(&mut self, amount: T)
        requires
            old(self).wf(),
        ensures
            final(self)@ == added(old(self)@, 0, old(self)@.len() as int, amount),
            final(self).wf(),
            final(self).is_view() == old(self).is_view(),
            final(final(self).lender())@ == final(old(self).lender())@,
    {
        let size: usize = self.size;
        self.accumulate(0, size, amount);
    }
}

impl<'a, T: Saturating + Copy> Array<'a, T> {
    /// Adds `amount` to the `count` cells from `start` on, stopping each sum
    /// at the ends of the cell type's range. The caller has checked that the
    /// range lies within the array.
    fn saturate(&mut self, start: usize, count: usize, amount: T)
        requires
            old(self).wf(),
            start + count <= old(self)@.len(),
        ensures
            final(self)@ == saturated(old(self)@, start as int, count as int, amount),
            final(self).wf(),
            final(self).is_view() == old(self).is_view(),
            final(final(self).lender())@ == final(old(self).lender())@,
    {
        let ghost before = self@;
        let cells = self.storage.cells_mut();
        let end: usize = start + count;
        let mut index: usize = start;
        while index < end
            invariant
                start <= index <= end <= before.len(),
                end == start + count,
                cells@ == saturated(before, start as int, index - start, amount),
            decreases end - index,
        {
            let sum = cells[index].saturating_add(amount);
            cells[index] = sum;
            index += 1;
        }
    }

    /// Adds `amount` to the cell at `index`, stopping at the ends of the cell
    /// type's range, or refuses an index past the end and changes nothing.
    pub fn saturating_add(&mut self, index: usize, amount: T) -> (r: Result<(), Error>)
        requires
            old(self).wf(),
        ensures
            match r {
                Ok(()) => index < old(self)@.len() && final(self)@ == old(self)@.update(
                    index as int,
                    old(self)@[index as int].saturating_sum(amount),
                ),
                Err(e) => index >= old(self)@.len() && e == Error::IndexOutOfBounds && final(self)@
                    == old(self)@,
            },
            final(self).wf(),
            final(self).is_view() == old(self).is_view(),
            final(final(self).lender())@ == final(old(self).lender())@,
    {
        self.check_bound(index)?;
        let cells = self.storage.cells_mut();
        let sum = cells[index].saturating_add(amount);
        cells[index] = sum;
        Ok(())
    }

    /// Adds `amount_to_add` to the `amount_of_elements` cells from
    /// `start_index` on, stopping each sum at the ends of the cell type's
    /// range, and leaves the others as they are. Ranges are accepted and
    /// refused as by [`Array::add_some`].
    pub fn saturating_add_some(
        &mut self,
        start_index: usize,
        amount_of_elements: usize,
        amount_to_add: T,
    ) -> (r: Result<(), Error>)
        requires
            old(self).wf(),
        ensures
            r == range_check(old(self)@.len(), start_index as int, amount_of_elements as int),
            final(self)@ == (if r is Ok {
                saturated(
                    old(self)@,
                    start_index as int,
                    amount_of_elements as int,
                    amount_to_add,
                )
            } else {
                old(self)@
            }),
            final(self).wf(),
            final(self).is_view() == old(self).is_view(),
            final(final(self).lender())@ == final(old(self).lender())@,
    {
        if amount_of_elements != 0 {
            let end_index: usize = last_index(start_index, amount_of_elements)?;
            self.check_bound(end_index)?;
            self.saturate(start_index, amount_of_elements, amount_to_add);
        }
        Ok(())
    }

    /// Adds `amount` to every cell, stopping each sum at the ends of the cell
    /// type's range.
    pub fn saturating_add_all(&mut self, amount: T)
        requires
            old(self).wf(),
        ensures
            final(self)@ == saturated(old(self)@, 0, old(self)@.len() as int, amount),
            final(self).wf(),
            final(self).is_view() == old(self).is_view(),
            final(final(self).lender())@ == final(old(self).lender())@,
    {
        let size: usize = self.size;
        self.saturate(0, size, amount);
    }
}

/// `cells` with `value` in each of the `count` cells from `start` on.
pub open spec fn filled<T>(cells: Seq<T>, start: int, count: int, value: T) -> Seq<T> {
    Seq::new(
        cells.len(),
        |i: int|
            if start <= i < start + count {
                value
            } else {
                cells[i]
            },
    )
}

/// `cells` with `amount` added, wrapping, to each of the `count` cells from
/// `start` on.
pub open spec fn added<T: Wrapping>(cells: Seq<T>, start: int, count: int, amount: T) -> Seq<T> {
    Seq::new(
        cells.len(),
        |i: int|
            if start <= i < start + count {
                cells[i].wrapping_sum(amount)
            } else {
                cells[i]
            },
    )
}

/// `cells` with `amount` added, saturating, to each of the `count` cells from
/// `start` on.
pub open spec fn saturated<T: Saturating>(
    cells: Seq<T>,
    start: int,
    count: int,
    amount: T,
) -> Seq<T> {
    Seq::new(
        cells.len(),
        |i: int|
            if start <= i < start + count {
                cells[i].saturating_sum(amount)
            } else {
                cells[i]
            },
    )
}

/// What a ranged operation answers for `count` cells from `start` on in a
/// buffer of `len` cells: nothing to do or a range that fits is accepted.
pub open spec fn range_check(len: nat, start: int, count: int) -> Result<(), Error> {
    if count == 0 || start + count <= len {
        Ok(())
    } else {
        Err(sub_range_error(len, start, count))
    }
}

/// The refusal that a range of `count` cells from `start` on meets in a
/// buffer of `len` cells, where `count` is zero or the range does not fit.
pub open spec fn sub_range_error(len: nat, start: int, count: int) -> Error {
    if count == 0 {
        Error::InvalidSize
    } else if start + count - 1 > usize::MAX {
        Error::ArithmeticOverflow
    } else {
        Error::IndexOutOfBounds
    }
}

/// The last index of the `count > 0` cells from `start` on, where it fits in
/// `usize`.
fn last_index(start: usize, count: usize) -> (r: Result<usize, Error>)
    requires
        count > 0,
    ensures
        match r {
            Ok(end) => end == start + count - 1,
            Err(e) => start + count - 1 > usize::MAX && e == Error::ArithmeticOverflow,
        },
{
    match start.checked_add(count - 1) {
        Some(end) => Ok(end),
        None => Err(Error::ArithmeticOverflow),
    }
}

/// A cell that was set reads back as what it was set to, and setting it
/// changes no other cell.
pub proof fn lemma_set_then_get<T>(cells: Seq<T>, index: int, value: T)
    requires
        0 <= index < cells.len(),
    ensures
        cells.update(index, value).len() == cells.len(),
        cells.update(index, value)[index] == value,
        forall|other: int|
            0 <= other < cells.len() && other != index ==> cells.update(index, value)[other]
                == cells[other],
{
}

/// Filling a range that lies within the cells sets every cell inside it and
/// changes none outside it; filling no cells changes nothing.
pub proof fn lemma_filled_range<T>(cells: Seq<T>, start: int, count: int, value: T)
    requires
        0 <= start,
        0 <= count,
        start + count <= cells.len(),
    ensures
        filled(cells, start, count, value).len() == cells.len(),
        forall|i: int| start <= i < start + count ==> filled(cells, start, count, value)[i] == value,
        forall|i: int|
            0 <= i < cells.len() && !(start <= i < start + count) ==> filled(
                cells,
                start,
                count,
                value,
            )[i] == cells[i],
        count == 0 ==> filled(cells, start, count, value) == cells,
{
}

/// Adding `first` and then `second` to every cell comes to the same as
/// adding their wrapping sum once.
pub proof fn lemma_add_all_twice<T: Wrapping>(cells: Seq<T>, first: T, second: T)
    ensures
        added(added(cells, 0, cells.len() as int, first), 0, cells.len() as int, second) == added(
            cells,
            0,
            cells.len() as int,
            first.wrapping_sum(second),
        ),
{
    let len = cells.len() as int;
    let twice = added(added(cells, 0, len, first), 0, len, second);
    let once = added(cells, 0, len, first.wrapping_sum(second));
    assert forall|i: int| 0 <= i < len implies twice[i] == once[i] by {
        cells[i].lemma_wrapping_sum_associative(first, second);
    }
}

/// A saturating addition to every cell leaves each cell within the range of
/// its type, standing for the true sum where that lies within the range and
/// for the nearer end of the range where it does not.
pub proof fn lemma_saturated_all_clamps<T: Saturating>(cells: Seq<T>, amount: T)
    ensures
        saturated(cells, 0, cells.len() as int, amount).len() == cells.len(),
        forall|i: int|
            0 <= i < cells.len() ==> {
                let sum = #[trigger] saturated(cells, 0, cells.len() as int, amount)[i];
                &&& T::lowest() <= sum.value() <= T::highest()
                &&& sum.value() == clamped(
                    cells[i].value() + amount.value(),
                    T::lowest(),
                    T::highest(),
                )
            },
{
    let len = cells.len() as int;
    assert forall|i: int| 0 <= i < len implies {
        let sum = #[trigger] saturated(cells, 0, len, amount)[i];
        &&& T::lowest() <= sum.value() <= T::highest()
        &&& sum.value() == clamped(cells[i].value() + amount.value(), T::lowest(), T::highest())
    } by {
        cells[i].lemma_saturating_sum(amount);
    }
}

/// `array[index]` reads the cell at `index`, which the caller has checked.
impl<'a, T> core::ops::Index<usize> for Array<'a, T> {
    type Output = T;

    fn index(&self, index: usize) -> (cell: &T)
        ensures
            *cell == self@[index as int],
    {
        self.get_unchecked_ref(index)
    }
}

impl<'a, T> vstd::std_specs::core::IndexSpecImpl<usize> for Array<'a, T> {
    open spec fn index_req(&self, index: &usize) -> bool {
        self.wf() && *index < self@.len()
    }
}

} // verus!

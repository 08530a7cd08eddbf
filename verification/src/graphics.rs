//! Drawing line segments into a grid of cells, and the exact account of
//! which cells a segment adds to and how often.
use crate::error::Error;
use crate::table::{cell_column, cell_index, cell_row, lemma_cell_index, lemma_cell_of_index};
use vstd::prelude::*;

verus! {

/// Something that lines can be drawn into: a grid of `sink_width()` by
/// `sink_height()` cells, kept row by row in the first cells of
/// `sink_cells()`, that can add an amount to one cell or to every cell of a
/// rectangle.
///
/// [`Graphics2D::draw_line`] is built on these two additions alone, so that
/// lines that cross add up in the cells they share.
pub trait Graphics2D<T: Copy>: Sized {
    /// The invariant that the drawing operations need and keep.
    spec fn sink_wf(&self) -> bool;

    /// The number of columns.
    spec fn sink_width(&self) -> nat;

    /// The number of rows.
    spec fn sink_height(&self) -> nat;

    /// The cells, row by row; cells beyond the grid may follow.
    spec fn sink_cells(&self) -> Seq<T>;

    /// Whether the sink keeps its cells in storage that it has borrowed.
    spec fn sink_is_view(&self) -> bool;

    /// The borrowed cells that the sink writes through, where it has any.
    spec fn sink_lender(&self) -> &mut [T];

    /// The addition of the sink: what a cell holding the first argument
    /// holds once the second has been added to it.
    spec fn sink_sum() -> spec_fn(T, T) -> T;

    /// A well-formed sink has sides that are not zero and holds a cell for
    /// each cell of its grid.
    proof fn lemma_sink_wf(&self)
        requires
            self.sink_wf(),
        ensures
            self.sink_width() > 0,
            self.sink_height() > 0,
            self.sink_width() * self.sink_height() <= self.sink_cells().len(),
    ;

    /// Adds `amount` to the cell in column `x` of row `y`, both of which the
    /// caller has checked.
    fn add_unchecked(&mut self, x: usize, y: usize, amount: T)
        requires
            old(self).sink_wf(),
            x < old(self).sink_width(),
            y < old(self).sink_height(),
        ensures
            final(self).sink_cells() == plotted(
                old(self).sink_cells(),
                old(self).sink_width(),
                x as int,
                y as int,
                Self::sink_sum(),
                amount,
            ),
            final(self).sink_wf(),
            final(self).sink_width() == old(self).sink_width(),
            final(self).sink_height() == old(self).sink_height(),
            final(self).sink_is_view() == old(self).sink_is_view(),
            final(final(self).sink_lender())@ == final(old(self).sink_lender())@,
    ;

    /// Adds `amount` to every cell in the columns `min_x` to `max_x` of the
    /// rows `min_y` to `max_y`, all of which the caller has checked.
    fn add_unchecked_rect(&mut self, min_x: usize, min_y: usize, max_x: usize, max_y: usize, amount: T)
        requires
            old(self).sink_wf(),
            min_x <= max_x < old(self).sink_width(),
            min_y <= max_y < old(self).sink_height(),
        ensures
            final(self).sink_cells() == rect_added(
                old(self).sink_cells(),
                old(self).sink_width(),
                min_x as int,
                min_y as int,
                max_x as int,
                max_y as int,
                Self::sink_sum(),
                amount,
            ),
            final(self).sink_wf(),
            final(self).sink_width() == old(self).sink_width(),
            final(self).sink_height() == old(self).sink_height(),
            final(self).sink_is_view() == old(self).sink_is_view(),
            final(final(self).sink_lender())@ == final(old(self).sink_lender())@,
    ;

    /// The number of columns.
    fn get_width(&self) -> (width: usize)
        requires
            self.sink_wf(),
        ensures
            width == self.sink_width(),
    ;

    /// The number of rows.
    fn get_height(&self) -> (height: usize)
        requires
            self.sink_wf(),
        ensures
            height == self.sink_height(),
    ;

    /// Draws the segment from `(x1, y1)` to `(x2, y2)`: adds `value` to the
    /// cells of the grid that the segment passes through, once for each
    /// time [`line_hits`] counts the cell, and leaves every other cell as it
    /// is. Both ends may lie outside the grid; what lies outside is left
    /// out.
    ///
    /// A slanted segment is walked twice, column by column and row by row,
    /// so that it has no gaps whichever way it leans. Where the index
    /// arithmetic of those walks would not fit in `usize`
    /// ([`line_overflows`]), the segment is refused as `ArithmeticOverflow`
    /// and nothing is drawn.
    fn draw_line(&mut self, x1: usize, y1: usize, x2: usize, y2: usize, value: T) -> (r: Result<
        (),
        Error,
    >)
        requires
            old(self).sink_wf(),
        ensures
            match r {
                Ok(()) => {
                    &&& !line_overflows(
                        old(self).sink_width(),
                        old(self).sink_height(),
                        x1 as int,
                        y1 as int,
                        x2 as int,
                        y2 as int,
                    )
                    &&& final(self).sink_cells() == line_drawn(
                        old(self).sink_cells(),
                        old(self).sink_width(),
                        old(self).sink_height(),
                        x1 as int,
                        y1 as int,
                        x2 as int,
                        y2 as int,
                        Self::sink_sum(),
                        value,
                    )
                },
                Err(e) => {
                    &&& line_overflows(
                        old(self).sink_width(),
                        old(self).sink_height(),
                        x1 as int,
                        y1 as int,
                        x2 as int,
                        y2 as int,
                    )
                    &&& e == Error::ArithmeticOverflow
                    &&& final(self).sink_cells() == old(self).sink_cells()
                },
            },
            final(self).sink_wf(),
            final(self).sink_width() == old(self).sink_width(),
            final(self).sink_height() == old(self).sink_height(),
            final(self).sink_is_view() == old(self).sink_is_view(),
            final(final(self).sink_lender())@ == final(old(self).sink_lender())@,
    {
        let width: usize = self.get_width();
        let height: usize = self.get_height();
        let ghost before = self.sink_cells();
        let ghost sum = Self::sink_sum();
        proof {
            self.lemma_sink_wf();
        }

        // A segment wholly beyond the right or the lower side touches no cell.
        if (x1 >= width && x2 >= width) || (y1 >= height && y2 >= height) {
            proof {
                lemma_line_outside(
                    before,
                    width as nat,
                    height as nat,
                    x1 as int,
                    y1 as int,
                    x2 as int,
                    y2 as int,
                    sum,
                    value,
                );
            }
            return Ok(());
        }
        if x1 == x2 {
            let (min_y, max_y): (usize, usize) = if y1 < y2 {
                (y1, y2)
            } else {
                (y2, y1)
            };
            let last_y: usize = if max_y < height {
                max_y
            } else {
                height - 1
            };
            self.add_unchecked_rect(x1, min_y, x1, last_y, value);
            proof {
                lemma_line_upright(
                    before,
                    width as nat,
                    height as nat,
                    x1 as int,
                    y1 as int,
                    x2 as int,
                    y2 as int,
                    sum,
                    value,
                );
            }
            return Ok(());
        }
        if y1 == y2 {
            let (min_x, max_x): (usize, usize) = if x1 < x2 {
                (x1, x2)
            } else {
                (x2, x1)
            };
            let last_x: usize = if max_x < width {
                max_x
            } else {
                width - 1
            };
            self.add_unchecked_rect(min_x, y1, last_x, y1, value);
            proof {
                lemma_line_level(
                    before,
                    width as nat,
                    height as nat,
                    x1 as int,
                    y1 as int,
                    x2 as int,
                    y2 as int,
                    sum,
                    value,
                );
            }
            return Ok(());
        }
        // The segment is slanted: walk it by columns, then by rows.

        let (min_x, max_x): (usize, usize) = if x1 < x2 {
            (x1, x2)
        } else {
            (x2, x1)
        };
        let (min_y, max_y): (usize, usize) = if y1 < y2 {
            (y1, y2)
        } else {
            (y2, y1)
        };
        let dx: usize = max_x - min_x;
        let dy: usize = max_y - min_y;
        let negative_slope: bool = (x1 == min_x) != (y1 == min_y);
        let end_x: usize = if max_x >= width {
            width - 1 - min_x
        } else {
            max_x - min_x
        };
        let end_y: usize = if max_y >= height {
            height - 1 - min_y
        } else {
            max_y - min_y
        };

        if !walk_fits(end_x, dy, min_y) || !walk_fits(end_y, dx, min_x) {
            return Err(Error::ArithmeticOverflow);
        }
        let ghost old_self = *self;
        proof {
            lemma_walked_none(
                before,
                width as nat,
                height as nat,
                x1 as int,
                y1 as int,
                x2 as int,
                y2 as int,
                sum,
                value,
            );
        }

        let mut extra_x: usize = 0;
        while extra_x <= end_x
            invariant
                self.sink_wf(),
                self.sink_width() == width,
                self.sink_height() == height,
                self.sink_is_view() == old_self.sink_is_view(),
                final(self.sink_lender())@ == final(old_self.sink_lender())@,
                sum == Self::sink_sum(),
                width * height <= before.len(),
                x1 != x2,
                y1 != y2,
                min_x == lesser(x1 as int, x2 as int),
                max_x == greater(x1 as int, x2 as int),
                min_y == lesser(y1 as int, y2 as int),
                max_y == greater(y1 as int, y2 as int),
                dx == max_x - min_x,
                dy == max_y - min_y,
                negative_slope == !line_rises(x1 as int, y1 as int, x2 as int, y2 as int),
                min_x + end_x < width,
                spec_walk_fits(end_x as int, dy as int, min_y as int),
                extra_x <= end_x + 1,
                self.sink_cells() == walked(
                    before,
                    width as nat,
                    height as nat,
                    x1 as int,
                    y1 as int,
                    x2 as int,
                    y2 as int,
                    extra_x as int,
                    0,
                    sum,
                    value,
                ),
            decreases end_x + 1 - extra_x,
        {
            proof {
                assert(extra_x * dy <= end_x * dy) by (nonlinear_arith)
                    requires
                        extra_x <= end_x,
                        0 <= dy,
                ;
                lemma_quotient(extra_x * dy, dx as int);
            }
            let extra_y: usize = extra_x * dy / dx;
            let ghost cells = self.sink_cells();
            if negative_slope {
                if extra_y <= max_y && max_y - extra_y < height {
                    self.add_unchecked(min_x + extra_x, max_y - extra_y, value);
                }
            } else if extra_y + min_y < height {
                self.add_unchecked(min_x + extra_x, extra_y + min_y, value);
            }
            proof {
                lemma_column_step(
                    before,
                    cells,
                    width as nat,
                    height as nat,
                    x1 as int,
                    y1 as int,
                    x2 as int,
                    y2 as int,
                    extra_x as int,
                    sum,
                    value,
                );
            }
            extra_x += 1;
        }

        let mut extra_y: usize = 0;
        while extra_y <= end_y
            invariant
                self.sink_wf(),
                self.sink_width() == width,
                self.sink_height() == height,
                self.sink_is_view() == old_self.sink_is_view(),
                final(self.sink_lender())@ == final(old_self.sink_lender())@,
                sum == Self::sink_sum(),
                width * height <= before.len(),
                x1 != x2,
                y1 != y2,
                min_x == lesser(x1 as int, x2 as int),
                max_x == greater(x1 as int, x2 as int),
                min_y == lesser(y1 as int, y2 as int),
                max_y == greater(y1 as int, y2 as int),
                dx == max_x - min_x,
                dy == max_y - min_y,
                negative_slope == !line_rises(x1 as int, y1 as int, x2 as int, y2 as int),
                min_y + end_y < height,
                spec_walk_fits(end_y as int, dx as int, min_x as int),
                extra_y <= end_y + 1,
                self.sink_cells() == walked(
                    before,
                    width as nat,
                    height as nat,
                    x1 as int,
                    y1 as int,
                    x2 as int,
                    y2 as int,
                    end_x + 1,
                    extra_y as int,
                    sum,
                    value,
                ),
            decreases end_y + 1 - extra_y,
        {
            proof {
                assert(extra_y * dx <= end_y * dx) by (nonlinear_arith)
                    requires
                        extra_y <= end_y,
                        0 <= dx,
                ;
                lemma_quotient(extra_y * dx, dy as int);
            }
            let extra_x: usize = extra_y * dx / dy;
            let ghost cells = self.sink_cells();
            if negative_slope {
                if extra_x <= max_x && max_x - extra_x < width {
                    self.add_unchecked(max_x - extra_x, min_y + extra_y, value);
                }
            } else if extra_x + min_x < width {
                self.add_unchecked(extra_x + min_x, min_y + extra_y, value);
            }
            proof {
                lemma_row_step(
                    before,
                    cells,
                    width as nat,
                    height as nat,
                    x1 as int,
                    y1 as int,
                    x2 as int,
                    y2 as int,
                    end_x + 1,
                    extra_y as int,
                    sum,
                    value,
                );
            }
            extra_y += 1;
        }
        proof {
            lemma_walked_all(
                before,
                width as nat,
                height as nat,
                x1 as int,
                y1 as int,
                x2 as int,
                y2 as int,
                sum,
                value,
            );
        }
        Ok(())
    }
}

/// `cells` with `amount` added by `sum` to the cell in column `x` of row `y`
/// of a grid `width` wide.
pub open spec fn plotted<T>(
    cells: Seq<T>,
    width: nat,
    x: int,
    y: int,
    sum: spec_fn(T, T) -> T,
    amount: T,
) -> Seq<T> {
    cells.update(cell_index(width, x, y), sum(cells[cell_index(width, x, y)], amount))
}

/// `cells` with `amount` added by `sum` to every cell in the columns `min_x`
/// to `max_x` of the rows `min_y` to `max_y` of a grid `width` wide.
pub open spec fn rect_added<T>(
    cells: Seq<T>,
    width: nat,
    min_x: int,
    min_y: int,
    max_x: int,
    max_y: int,
    sum: spec_fn(T, T) -> T,
    amount: T,
) -> Seq<T> {
    Seq::new(
        cells.len(),
        |i: int|
            if min_x <= cell_column(width, i) <= max_x && min_y <= cell_row(width, i) <= max_y {
                sum(cells[i], amount)
            } else {
                cells[i]
            },
    )
}

/// The lesser of two integers.
pub open spec fn lesser(a: int, b: int) -> int {
    if a < b {
        a
    } else {
        b
    }
}

/// The greater of two integers.
pub open spec fn greater(a: int, b: int) -> int {
    if a < b {
        b
    } else {
        a
    }
}

/// Whether a segment lies wholly beyond the right side or wholly beyond the
/// lower side of the grid, so that it touches no cell.
pub open spec fn line_outside(width: nat, height: nat, x1: int, y1: int, x2: int, y2: int) -> bool {
    (x1 >= width && x2 >= width) || (y1 >= height && y2 >= height)
}

/// Whether a slanted segment has its rows grow as its columns grow.
pub open spec fn line_rises(x1: int, y1: int, x2: int, y2: int) -> bool {
    (x1 < x2) == (y1 < y2)
}

/// The row in which the walk by columns of a slanted segment meets column
/// `x`: the rows covered are shared out over the columns covered in
/// proportion, rounded down.
pub open spec fn line_row_at(x1: int, y1: int, x2: int, y2: int, x: int) -> int {
    let dx = greater(x1, x2) - lesser(x1, x2);
    let dy = greater(y1, y2) - lesser(y1, y2);
    let step = (x - lesser(x1, x2)) * dy / dx;
    if line_rises(x1, y1, x2, y2) {
        lesser(y1, y2) + step
    } else {
        greater(y1, y2) - step
    }
}

/// The column in which the walk by rows of a slanted segment meets row `y`.
pub open spec fn line_column_at(x1: int, y1: int, x2: int, y2: int, y: int) -> int {
    let dx = greater(x1, x2) - lesser(x1, x2);
    let dy = greater(y1, y2) - lesser(y1, y2);
    let step = (y - lesser(y1, y2)) * dx / dy;
    if line_rises(x1, y1, x2, y2) {
        lesser(x1, x2) + step
    } else {
        greater(x1, x2) - step
    }
}

/// How often the two walks of a slanted segment meet the cell in column `x`
/// of row `y`, where the walk by columns covers the first `columns` columns
/// of the segment and the walk by rows its first `rows` rows.
pub open spec fn walk_hits(
    x1: int,
    y1: int,
    x2: int,
    y2: int,
    columns: int,
    rows: int,
    x: int,
    y: int,
) -> nat {
    let by_columns: nat = if lesser(x1, x2) <= x < lesser(x1, x2) + columns && y == line_row_at(
        x1,
        y1,
        x2,
        y2,
        x,
    ) {
        1
    } else {
        0
    };
    let by_rows: nat = if lesser(y1, y2) <= y < lesser(y1, y2) + rows && x == line_column_at(
        x1,
        y1,
        x2,
        y2,
        y,
    ) {
        1
    } else {
        0
    };
    by_columns + by_rows
}

/// How often drawing the segment from `(x1, y1)` to `(x2, y2)` adds to the
/// cell in column `x` of row `y` of a grid of `width` by `height`.
///
/// A segment wholly beyond the right or the lower side adds nowhere. An
/// upright or level segment adds once to each cell between its ends. A
/// slanted segment adds once to the cell that its walk by columns meets in
/// each of its columns, and once to the cell that its walk by rows meets in
/// each of its rows: twice where the two walks meet the same cell.
pub open spec fn line_hits(
    width: nat,
    height: nat,
    x1: int,
    y1: int,
    x2: int,
    y2: int,
    x: int,
    y: int,
) -> nat {
    if line_outside(width, height, x1, y1, x2, y2) {
        0
    } else if x1 == x2 {
        if x == x1 && lesser(y1, y2) <= y <= greater(y1, y2) {
            1
        } else {
            0
        }
    } else if y1 == y2 {
        if y == y1 && lesser(x1, x2) <= x <= greater(x1, x2) {
            1
        } else {
            0
        }
    } else {
        walk_hits(
            x1,
            y1,
            x2,
            y2,
            greater(x1, x2) - lesser(x1, x2) + 1,
            greater(y1, y2) - lesser(y1, y2) + 1,
            x,
            y,
        )
    }
}

/// Whether drawing the segment is refused: it is slanted and reaches into
/// the grid, and the furthest step of one of its walks, taken times the
/// length of the segment along the other axis and added to the least
/// coordinate on that axis, does not fit in `usize`.
pub open spec fn line_overflows(
    width: nat,
    height: nat,
    x1: int,
    y1: int,
    x2: int,
    y2: int,
) -> bool {
    let dx = greater(x1, x2) - lesser(x1, x2);
    let dy = greater(y1, y2) - lesser(y1, y2);
    let end_x = lesser(greater(x1, x2), width - 1) - lesser(x1, x2);
    let end_y = lesser(greater(y1, y2), height - 1) - lesser(y1, y2);
    &&& !line_outside(width, height, x1, y1, x2, y2)
    &&& x1 != x2
    &&& y1 != y2
    &&& !(spec_walk_fits(end_x, dy, lesser(y1, y2)) && spec_walk_fits(end_y, dx, lesser(x1, x2)))
}

/// Whether the furthest step of a walk fits in `usize`: the walk takes
/// `steps` steps along one axis, the segment is `length` long along the
/// other, and `least` is its least coordinate there.
pub open spec fn spec_walk_fits(steps: int, length: int, least: int) -> bool {
    steps * length + least <= usize::MAX
}

/// Tells whether the furthest step of a walk fits in `usize`.
fn walk_fits(steps: usize, length: usize, least: usize) -> (fits: bool)
    ensures
        fits == spec_walk_fits(steps as int, length as int, least as int),
{
    match steps.checked_mul(length) {
        Some(product) => product.checked_add(least).is_some(),
        None => false,
    }
}

/// `value` with `amount` added to it `times` times by `sum`.
pub open spec fn sum_times<T>(sum: spec_fn(T, T) -> T, value: T, amount: T, times: nat) -> T
    decreases times,
{
    if times == 0 {
        value
    } else {
        sum(sum_times(sum, value, amount, (times - 1) as nat), amount)
    }
}

/// The cells of a grid of `width` by `height` after the segment from
/// `(x1, y1)` to `(x2, y2)` has been drawn into it: each cell of the grid has
/// had `amount` added as often as [`line_hits`] counts it, and the cells
/// that follow the grid are as they were.
pub open spec fn line_drawn<T>(
    cells: Seq<T>,
    width: nat,
    height: nat,
    x1: int,
    y1: int,
    x2: int,
    y2: int,
    sum: spec_fn(T, T) -> T,
    amount: T,
) -> Seq<T> {
    Seq::new(
        cells.len(),
        |i: int|
            if i < width * height {
                sum_times(
                    sum,
                    cells[i],
                    amount,
                    line_hits(
                        width,
                        height,
                        x1,
                        y1,
                        x2,
                        y2,
                        cell_column(width, i),
                        cell_row(width, i),
                    ),
                )
            } else {
                cells[i]
            },
    )
}

/// The cells of a grid part of the way through the two walks of a slanted
/// segment.
#[verifier::opaque]
spec fn walked<T>(
    cells: Seq<T>,
    width: nat,
    height: nat,
    x1: int,
    y1: int,
    x2: int,
    y2: int,
    columns: int,
    rows: int,
    sum: spec_fn(T, T) -> T,
    amount: T,
) -> Seq<T> {
    Seq::new(
        cells.len(),
        |i: int|
            if i < width * height {
                sum_times(
                    sum,
                    cells[i],
                    amount,
                    walk_hits(
                        x1,
                        y1,
                        x2,
                        y2,
                        columns,
                        rows,
                        cell_column(width, i),
                        cell_row(width, i),
                    ),
                )
            } else {
                cells[i]
            },
    )
}

/// A quotient of a number that is not negative by a positive one lies
/// between nothing and that number.
proof fn lemma_quotient(number: int, divisor: int)
    requires
        0 <= number,
        0 < divisor,
    ensures
        0 <= number / divisor <= number,
{
    vstd::arithmetic::div_mod::lemma_div_pos_is_pos(number, divisor);
    vstd::arithmetic::div_mod::lemma_div_is_ordered_by_denominator(number, 1, divisor);
    vstd::arithmetic::div_mod::lemma_div_basics_3(number);
}

/// A cell that follows the grid lies in no row of the grid.
proof fn lemma_row_beyond(width: nat, height: nat, index: int)
    requires
        width > 0,
        width * height <= index,
    ensures
        cell_row(width, index) >= height,
{
    let w = width as int;
    assert(width * height == height * w) by (nonlinear_arith)
        requires
            w == width,
    ;
    vstd::arithmetic::div_mod::lemma_div_is_ordered(height * w, index, w);
    vstd::arithmetic::div_mod::lemma_div_multiples_vanish(height as int, w);
}

/// A segment wholly beyond the right or the lower side changes no cell.
pub proof fn lemma_line_outside<T>(
    cells: Seq<T>,
    width: nat,
    height: nat,
    x1: int,
    y1: int,
    x2: int,
    y2: int,
    sum: spec_fn(T, T) -> T,
    amount: T,
)
    requires
        line_outside(width, height, x1, y1, x2, y2),
    ensures
        line_drawn(cells, width, height, x1, y1, x2, y2, sum, amount) == cells,
{
    reveal_with_fuel(sum_times, 1);
}

/// Drawing an upright segment adds to the rectangle one column wide from
/// its upper end to its lower end or to the last row, whichever comes
/// first.
proof fn lemma_line_upright<T>(
    cells: Seq<T>,
    width: nat,
    height: nat,
    x1: int,
    y1: int,
    x2: int,
    y2: int,
    sum: spec_fn(T, T) -> T,
    amount: T,
)
    requires
        width > 0,
        0 <= y1,
        0 <= y2,
        !line_outside(width, height, x1, y1, x2, y2),
        x1 == x2,
    ensures
        rect_added(
            cells,
            width,
            x1,
            lesser(y1, y2),
            x1,
            lesser(greater(y1, y2), height - 1),
            sum,
            amount,
        ) == line_drawn(cells, width, height, x1, y1, x2, y2, sum, amount),
{
    reveal_with_fuel(sum_times, 2);
    let rect = rect_added(
        cells,
        width,
        x1,
        lesser(y1, y2),
        x1,
        lesser(greater(y1, y2), height - 1),
        sum,
        amount,
    );
    let line = line_drawn(cells, width, height, x1, y1, x2, y2, sum, amount);
    assert forall|i: int| 0 <= i < cells.len() implies rect[i] == line[i] by {
        if i < width * height {
            lemma_cell_of_index(width, height, i);
        } else {
            lemma_row_beyond(width, height, i);
        }
    }
}

/// Drawing a level segment adds to the rectangle one row high from its left
/// end to its right end or to the last column, whichever comes first.
proof fn lemma_line_level<T>(
    cells: Seq<T>,
    width: nat,
    height: nat,
    x1: int,
    y1: int,
    x2: int,
    y2: int,
    sum: spec_fn(T, T) -> T,
    amount: T,
)
    requires
        width > 0,
        0 <= x1,
        0 <= x2,
        !line_outside(width, height, x1, y1, x2, y2),
        x1 != x2,
        y1 == y2,
    ensures
        rect_added(
            cells,
            width,
            lesser(x1, x2),
            y1,
            lesser(greater(x1, x2), width - 1),
            y1,
            sum,
            amount,
        ) == line_drawn(cells, width, height, x1, y1, x2, y2, sum, amount),
{
    reveal_with_fuel(sum_times, 2);
    let rect = rect_added(
        cells,
        width,
        lesser(x1, x2),
        y1,
        lesser(greater(x1, x2), width - 1),
        y1,
        sum,
        amount,
    );
    let line = line_drawn(cells, width, height, x1, y1, x2, y2, sum, amount);
    assert forall|i: int| 0 <= i < cells.len() implies rect[i] == line[i] by {
        if i < width * height {
            lemma_cell_of_index(width, height, i);
        } else {
            lemma_row_beyond(width, height, i);
        }
    }
}

/// Before either walk has taken a step, no cell has changed.
proof fn lemma_walked_none<T>(
    before: Seq<T>,
    width: nat,
    height: nat,
    x1: int,
    y1: int,
    x2: int,
    y2: int,
    sum: spec_fn(T, T) -> T,
    amount: T,
)
    ensures
        walked(before, width, height, x1, y1, x2, y2, 0, 0, sum, amount) == before,
{
    reveal(walked);
    reveal_with_fuel(sum_times, 1);
}

/// One step of a walk: where the walks, taken one step further, meet the
/// cell in column `px` of row `py` once more and every other cell of the
/// grid as often as before, the cells after the step are those before it
/// with the amount added to that cell, or those before it where that cell
/// lies outside the grid.
proof fn lemma_walk_step<T>(
    before: Seq<T>,
    cells: Seq<T>,
    width: nat,
    height: nat,
    x1: int,
    y1: int,
    x2: int,
    y2: int,
    columns: int,
    rows: int,
    next_columns: int,
    next_rows: int,
    px: int,
    py: int,
    sum: spec_fn(T, T) -> T,
    amount: T,
)
    requires
        width * height <= before.len(),
        cells == walked(before, width, height, x1, y1, x2, y2, columns, rows, sum, amount),
        forall|x: int, y: int|
            0 <= x < width && 0 <= y < height ==> #[trigger] walk_hits(
                x1,
                y1,
                x2,
                y2,
                next_columns,
                next_rows,
                x,
                y,
            ) == walk_hits(x1, y1, x2, y2, columns, rows, x, y) + (if x == px && y == py {
                1nat
            } else {
                0nat
            }),
    ensures
        0 <= px < width && 0 <= py < height ==> plotted(cells, width, px, py, sum, amount) == walked(
            before,
            width,
            height,
            x1,
            y1,
            x2,
            y2,
            next_columns,
            next_rows,
            sum,
            amount,
        ),
        !(0 <= px < width && 0 <= py < height) ==> cells == walked(
            before,
            width,
            height,
            x1,
            y1,
            x2,
            y2,
            next_columns,
            next_rows,
            sum,
            amount,
        ),
{
    reveal(walked);
    let next = walked(
        before,
        width,
        height,
        x1,
        y1,
        x2,
        y2,
        next_columns,
        next_rows,
        sum,
        amount,
    );
    if 0 <= px < width && 0 <= py < height {
        lemma_cell_index(width, height, px, py);
        let stepped = plotted(cells, width, px, py, sum, amount);
        assert forall|i: int| 0 <= i < before.len() implies stepped[i] == next[i] by {
            if i < width * height {
                lemma_cell_of_index(width, height, i);
                let x = cell_column(width, i);
                let y = cell_row(width, i);
                assert(walk_hits(x1, y1, x2, y2, next_columns, next_rows, x, y) == walk_hits(
                    x1,
                    y1,
                    x2,
                    y2,
                    columns,
                    rows,
                    x,
                    y,
                ) + (if x == px && y == py {
                    1nat
                } else {
                    0nat
                }));
            }
        }
    } else {
        assert forall|i: int| 0 <= i < before.len() implies cells[i] == next[i] by {
            if i < width * height {
                lemma_cell_of_index(width, height, i);
                let x = cell_column(width, i);
                let y = cell_row(width, i);
                assert(walk_hits(x1, y1, x2, y2, next_columns, next_rows, x, y) == walk_hits(
                    x1,
                    y1,
                    x2,
                    y2,
                    columns,
                    rows,
                    x,
                    y,
                ) + (if x == px && y == py {
                    1nat
                } else {
                    0nat
                }));
            }
        }
    }
}

/// One step of the walk by columns: column `lesser(x1, x2) + step` is met in
/// the row that [`line_row_at`] gives.
proof fn lemma_column_step<T>(
    before: Seq<T>,
    cells: Seq<T>,
    width: nat,
    height: nat,
    x1: int,
    y1: int,
    x2: int,
    y2: int,
    step: int,
    sum: spec_fn(T, T) -> T,
    amount: T,
)
    requires
        width * height <= before.len(),
        0 <= step,
        cells == walked(before, width, height, x1, y1, x2, y2, step, 0, sum, amount),
    ensures
        ({
            let px = lesser(x1, x2) + step;
            let py = line_row_at(x1, y1, x2, y2, px);
            let next = walked(before, width, height, x1, y1, x2, y2, step + 1, 0, sum, amount);
            if 0 <= px < width && 0 <= py < height {
                plotted(cells, width, px, py, sum, amount) == next
            } else {
                cells == next
            }
        }),
{
    let px = lesser(x1, x2) + step;
    let py = line_row_at(x1, y1, x2, y2, px);
    lemma_walk_step(
        before,
        cells,
        width,
        height,
        x1,
        y1,
        x2,
        y2,
        step,
        0,
        step + 1,
        0,
        px,
        py,
        sum,
        amount,
    );
}

/// One step of the walk by rows, after the walk by columns has covered
/// `columns` columns: row `lesser(y1, y2) + step` is met in the column that
/// [`line_column_at`] gives.
proof fn lemma_row_step<T>(
    before: Seq<T>,
    cells: Seq<T>,
    width: nat,
    height: nat,
    x1: int,
    y1: int,
    x2: int,
    y2: int,
    columns: int,
    step: int,
    sum: spec_fn(T, T) -> T,
    amount: T,
)
    requires
        width * height <= before.len(),
        0 <= step,
        cells == walked(before, width, height, x1, y1, x2, y2, columns, step, sum, amount),
    ensures
        ({
            let py = lesser(y1, y2) + step;
            let px = line_column_at(x1, y1, x2, y2, py);
            let next = walked(
                before,
                width,
                height,
                x1,
                y1,
                x2,
                y2,
                columns,
                step + 1,
                sum,
                amount,
            );
            if 0 <= px < width && 0 <= py < height {
                plotted(cells, width, px, py, sum, amount) == next
            } else {
                cells == next
            }
        }),
{
    let py = lesser(y1, y2) + step;
    let px = line_column_at(x1, y1, x2, y2, py);
    lemma_walk_step(
        before,
        cells,
        width,
        height,
        x1,
        y1,
        x2,
        y2,
        columns,
        step,
        columns,
        step + 1,
        px,
        py,
        sum,
        amount,
    );
}

/// Both walks of a slanted segment, each taken as far as the grid reaches,
/// have drawn the segment.
proof fn lemma_walked_all<T>(
    before: Seq<T>,
    width: nat,
    height: nat,
    x1: int,
    y1: int,
    x2: int,
    y2: int,
    sum: spec_fn(T, T) -> T,
    amount: T,
)
    requires
        width * height <= before.len(),
        !line_outside(width, height, x1, y1, x2, y2),
        x1 != x2,
        y1 != y2,
    ensures
        walked(
            before,
            width,
            height,
            x1,
            y1,
            x2,
            y2,
            lesser(greater(x1, x2), width - 1) - lesser(x1, x2) + 1,
            lesser(greater(y1, y2), height - 1) - lesser(y1, y2) + 1,
            sum,
            amount,
        ) == line_drawn(before, width, height, x1, y1, x2, y2, sum, amount),
{
    reveal(walked);
    let clipped = walked(
        before,
        width,
        height,
        x1,
        y1,
        x2,
        y2,
        lesser(greater(x1, x2), width - 1) - lesser(x1, x2) + 1,
        lesser(greater(y1, y2), height - 1) - lesser(y1, y2) + 1,
        sum,
        amount,
    );
    let line = line_drawn(before, width, height, x1, y1, x2, y2, sum, amount);
    assert forall|i: int| 0 <= i < before.len() implies clipped[i] == line[i] by {
        if i < width * height {
            lemma_cell_of_index(width, height, i);
        }
    }
}

/// Drawing a segment changes no cell beyond the grid, however far beyond the
/// grid the segment reaches, and leaves the number of cells as it is.
pub proof fn lemma_line_drawn_within_grid<T>(
    cells: Seq<T>,
    width: nat,
    height: nat,
    x1: int,
    y1: int,
    x2: int,
    y2: int,
    sum: spec_fn(T, T) -> T,
    amount: T,
)
    ensures
        line_drawn(cells, width, height, x1, y1, x2, y2, sum, amount).len() == cells.len(),
        forall|i: int|
            width * height <= i < cells.len() ==> line_drawn(
                cells,
                width,
                height,
                x1,
                y1,
                x2,
                y2,
                sum,
                amount,
            )[i] == cells[i],
{
}

/// Drawing an upright segment in a column of the grid adds once to each cell
/// of that column from the upper end of the segment to its lower end, as far
/// as the grid reaches, and changes no other cell of the grid.
pub proof fn lemma_upright_line_drawn<T>(
    cells: Seq<T>,
    width: nat,
    height: nat,
    x1: int,
    y1: int,
    y2: int,
    sum: spec_fn(T, T) -> T,
    amount: T,
)
    requires
        width * height <= cells.len(),
        0 <= x1 < width,
        0 <= y1,
        0 <= y2,
    ensures
        forall|x: int, y: int|
            0 <= x < width && 0 <= y < height ==> line_drawn(
                cells,
                width,
                height,
                x1,
                y1,
                x1,
                y2,
                sum,
                amount,
            )[#[trigger] cell_index(width, x, y)] == if x == x1 && lesser(y1, y2) <= y <= greater(
                y1,
                y2,
            ) {
                sum(cells[cell_index(width, x, y)], amount)
            } else {
                cells[cell_index(width, x, y)]
            },
{
    reveal_with_fuel(sum_times, 2);
    assert forall|x: int, y: int| 0 <= x < width && 0 <= y < height implies line_drawn(
        cells,
        width,
        height,
        x1,
        y1,
        x1,
        y2,
        sum,
        amount,
    )[#[trigger] cell_index(width, x, y)] == if x == x1 && lesser(y1, y2) <= y <= greater(
        y1,
        y2,
    ) {
        sum(cells[cell_index(width, x, y)], amount)
    } else {
        cells[cell_index(width, x, y)]
    } by {
        lemma_cell_index(width, height, x, y);
    }
}

/// Drawing a level segment in a row of the grid adds once to each cell of
/// that row from the left end of the segment to its right end, as far as the
/// grid reaches, and changes no other cell of the grid.
pub proof fn lemma_level_line_drawn<T>(
    cells: Seq<T>,
    width: nat,
    height: nat,
    x1: int,
    y1: int,
    x2: int,
    sum: spec_fn(T, T) -> T,
    amount: T,
)
    requires
        width * height <= cells.len(),
        0 <= y1 < height,
        0 <= x1,
        0 <= x2,
    ensures
        forall|x: int, y: int|
            0 <= x < width && 0 <= y < height ==> line_drawn(
                cells,
                width,
                height,
                x1,
                y1,
                x2,
                y1,
                sum,
                amount,
            )[#[trigger] cell_index(width, x, y)] == if y == y1 && lesser(x1, x2) <= x <= greater(
                x1,
                x2,
            ) {
                sum(cells[cell_index(width, x, y)], amount)
            } else {
                cells[cell_index(width, x, y)]
            },
{
    reveal_with_fuel(sum_times, 2);
    assert forall|x: int, y: int| 0 <= x < width && 0 <= y < height implies line_drawn(
        cells,
        width,
        height,
        x1,
        y1,
        x2,
        y1,
        sum,
        amount,
    )[#[trigger] cell_index(width, x, y)] == if y == y1 && lesser(x1, x2) <= x <= greater(
        x1,
        x2,
    ) {
        sum(cells[cell_index(width, x, y)], amount)
    } else {
        cells[cell_index(width, x, y)]
    } by {
        lemma_cell_index(width, height, x, y);
    }
}

/// A slanted segment leaves no gaps: in every column between its ends the
/// walk by columns meets a row between its ends, and in every row between
/// its ends the walk by rows meets a column between its ends; each of these
/// cells that lies within the grid is added to at least once.
pub proof fn lemma_slanted_line_has_no_gaps(
    width: nat,
    height: nat,
    x1: int,
    y1: int,
    x2: int,
    y2: int,
)
    requires
        0 <= x1,
        0 <= y1,
        0 <= x2,
        0 <= y2,
        x1 != x2,
        y1 != y2,
    ensures
        forall|x: int|
            lesser(x1, x2) <= x <= greater(x1, x2) ==> {
                let y = #[trigger] line_row_at(x1, y1, x2, y2, x);
                &&& lesser(y1, y2) <= y <= greater(y1, y2)
                &&& x < width && y < height ==> line_hits(width, height, x1, y1, x2, y2, x, y)
                    >= 1
            },
        forall|y: int|
            lesser(y1, y2) <= y <= greater(y1, y2) ==> {
                let x = #[trigger] line_column_at(x1, y1, x2, y2, y);
                &&& lesser(x1, x2) <= x <= greater(x1, x2)
                &&& x < width && y < height ==> line_hits(width, height, x1, y1, x2, y2, x, y)
                    >= 1
            },
{
    let dx = greater(x1, x2) - lesser(x1, x2);
    let dy = greater(y1, y2) - lesser(y1, y2);
    assert forall|x: int| lesser(x1, x2) <= x <= greater(x1, x2) implies {
        let y = #[trigger] line_row_at(x1, y1, x2, y2, x);
        &&& lesser(y1, y2) <= y <= greater(y1, y2)
        &&& x < width && y < height ==> line_hits(width, height, x1, y1, x2, y2, x, y) >= 1
    } by {
        lemma_share(x - lesser(x1, x2), dx, dy);
    }
    assert forall|y: int| lesser(y1, y2) <= y <= greater(y1, y2) implies {
        let x = #[trigger] line_column_at(x1, y1, x2, y2, y);
        &&& lesser(x1, x2) <= x <= greater(x1, x2)
        &&& x < width && y < height ==> line_hits(width, height, x1, y1, x2, y2, x, y) >= 1
    } by {
        lemma_share(y - lesser(y1, y2), dy, dx);
    }
}

/// The share of `length` that falls to `step` of `steps` steps, rounded down,
/// lies between nothing and all of it.
proof fn lemma_share(step: int, steps: int, length: int)
    requires
        0 <= step <= steps,
        0 < steps,
        0 <= length,
    ensures
        0 <= step * length / steps <= length,
{
    assert(0 <= step * length <= steps * length) by (nonlinear_arith)
        requires
            0 <= step <= steps,
            0 <= length,
    ;
    vstd::arithmetic::div_mod::lemma_div_pos_is_pos(step * length, steps);
    vstd::arithmetic::div_mod::lemma_div_is_ordered(step * length, steps * length, steps);
    assert(steps * length == length * steps) by (nonlinear_arith);
    vstd::arithmetic::div_mod::lemma_div_multiples_vanish(length, steps);
}

} // verus!

//! A dense two-dimensional grid stored in row-major order, with cursors that
//! walk it while reporting the grid coordinates of every element.

use vstd::prelude::*;

verus! {

use vstd::arithmetic::div_mod::{lemma_fundamental_div_mod, lemma_fundamental_div_mod_converse};
use vstd::arithmetic::mul::{lemma_mul_by_zero_is_zero, lemma_mul_is_commutative};

/// A fixed-size grid of values, addressed by `(row, column)` pairs and stored
/// row by row in one vector.  `dimensions` is `(width, height)`: `width`
/// columns and `height` rows.
pub struct Table<T> {
    dimensions: (usize, usize),
    data: Vec<T>,
}

impl<T> View for Table<T> {
    type V = Seq<T>;

    /// The elements in row-major order.
    closed spec fn view(&self) -> Seq<T> {
        self.data@
    }
}

impl<T> Table<T> {
    /// Number of columns.
    pub closed spec fn width(&self) -> usize {
        self.dimensions.0
    }

    /// Number of rows.
    pub closed spec fn height(&self) -> usize {
        self.dimensions.1
    }

    /// The storage holds exactly one element per grid cell.
    pub open spec fn wf(&self) -> bool {
        &&& self@.len() == self.width() * self.height()
        &&& self.width() * self.height() <= usize::MAX
    }

    /// Linear position of the cell `(row, column)` in row-major order.
    pub open spec fn spec_index_of(&self, row: int, column: int) -> int {
        row * self.width() + column
    }

    /// A full grid of copies of `value`.
    pub fn from_elem(dimensions: (usize, usize), value: T) -> (table: Table<T>) where T: Copy
        requires
            dimensions.0 * dimensions.1 <= usize::MAX,
        ensures
            table.wf(),
            table.width() == dimensions.0,
            table.height() == dimensions.1,
            table@.len() == dimensions.0 * dimensions.1,
            forall|i: int| 0 <= i < table@.len() ==> table@[i] == value,
    {
        let (width, height) = dimensions;
        let count: usize = width * height;
        let mut data: Vec<T> = Vec::new();
        while data.len() < count
            invariant
                data.len() <= count,
                data@ =~= Seq::new(data.len() as nat, |i: int| value),
            decreases count - data.len(),
        {
            data.push(value);
        }
        let table = Table { dimensions, data };
        proof {
            assert(table@ =~= Seq::new((dimensions.0 * dimensions.1) as nat, |i: int| value));
        }
        table
    }

    /// The grid's `(width, height)`.
    pub fn get_dimensions(&self) -> (dimensions: (usize, usize))
        ensures
            dimensions == (self.width(), self.height()),
    {
        self.dimensions
    }

    /// Number of cells.
    pub fn len(&self) -> (n: usize)
        ensures
            n == self@.len(),
    {
        self.data.len()
    }

    /// Linear position of the cell `index == (row, column)`.
    pub fn get_vec_index(&self, index: (usize, usize)) -> (i: usize)
        requires
            self.wf(),
            index.0 < self.height(),
            index.1 < self.width(),
        ensures
            i == self.spec_index_of(index.0 as int, index.1 as int),
            i < self@.len(),
    {
        let (row, column) = index;
        let (width, height) = self.dimensions;
        proof {
            assert((row as int) * (width as int) + (column as int) < (width as int) * (height
                as int)) by (nonlinear_arith)
                requires
                    (row as int) < (height as int),
                    (column as int) < (width as int),
                    0 <= row as int,
                    0 <= column as int,
            ;
        }
        row * width + column
    }

    /// The element at `(row, column)`.
    pub fn get(&self, index: (usize, usize)) -> (value: &T)
        requires
            self.wf(),
            index.0 < self.height(),
            index.1 < self.width(),
        ensures
            *value == self@[self.spec_index_of(index.0 as int, index.1 as int)],
    {
        let i = self.get_vec_index(index);
        &self.data[i]
    }

    /// Replaces the element at `(row, column)`; every other cell is unchanged.
    pub fn set(&mut self, index: (usize, usize), value: T)
        requires
            old(self).wf(),
            index.0 < old(self).height(),
            index.1 < old(self).width(),
        ensures
            final(self).wf(),
            final(self).width() == old(self).width(),
            final(self).height() == old(self).height(),
            final(self)@ == old(self)@.update(
                old(self).spec_index_of(index.0 as int, index.1 as int),
                value,
            ),
    {
        let i = self.get_vec_index(index);
        self.data.set(i, value);
    }

    /// A cursor over the elements in row-major order.
    pub fn iter<'a>(&'a self) -> (it: TableIter<'a, T>)
        ensures
            it.table() == *self,
            it.pos() == 0,
    {
        TableIter { table: self, pos: 0 }
    }

    /// An owning cursor over the elements in row-major order.
    pub fn into_iter(self) -> (it: TableIntoIter<T>)
        ensures
            it.table() == self,
            it.pos() == 0,
    {
        TableIntoIter { table: self, pos: 0 }
    }
}

/// Grid coordinate of the `index`-th cell of a row-major grid that is `width`
/// columns wide.
pub fn coord_of_index(index: usize, width: usize) -> (coordinate: (usize, usize))
    requires
        width > 0,
    ensures
        coordinate.0 as int == index as int / width as int,
        coordinate.1 as int == index as int % width as int,
        (coordinate.0 as int) * (width as int) + (coordinate.1 as int) == index as int,
{
    proof {
        lemma_fundamental_div_mod(index as int, width as int);
        lemma_mul_is_commutative(width as int, index as int / width as int);
    }
    (index / width, index % width)
}

/// A borrowing cursor that hands out the elements of a [`Table`] in row-major
/// order.
pub struct TableIter<'a, T> {
    table: &'a Table<T>,
    pos: usize,
}

impl<'a, T> TableIter<'a, T> {
    /// The grid being walked.
    pub closed spec fn table(&self) -> Table<T> {
        *self.table
    }

    /// How many elements have been handed out.
    pub closed spec fn pos(&self) -> usize {
        self.pos
    }

    /// The cursor points at an element or one past the last.
    pub open spec fn wf(&self) -> bool {
        &&& self.table().wf()
        &&& self.pos() <= self.table()@.len()
    }

    /// The next element in row-major order, or `None` once all have been
    /// handed out.
    pub fn next(&mut self) -> (r: Option<T>) where T: Copy
        requires
            old(self).wf(),
        ensures
            final(self).wf(),
            final(self).table() == old(self).table(),
            old(self).pos() < old(self).table()@.len() ==> {
                &&& r == Some(old(self).table()@[old(self).pos() as int])
                &&& final(self).pos() == old(self).pos() + 1
            },
            old(self).pos() == old(self).table()@.len() ==> {
                &&& r is None
                &&& final(self).pos() == old(self).pos()
            },
    {
        if self.pos < self.table.data.len() {
            let value = self.table.data[self.pos];
            self.pos = self.pos + 1;
            Some(value)
        } else {
            None
        }
    }

    /// Pairs every remaining element with grid coordinates counted from
    /// `(0, 0)`.
    pub fn enumerate_2d(self) -> (en: TableEnumerate<'a, T>)
        ensures
            en.table() == self.table(),
            en.pos() == self.pos(),
            en.row() == 0,
            en.col() == 0,
            self.wf() ==> en.inv(),
            self.wf() && self.pos() == 0 ==> en.aligned(),
    {
        proof {
            lemma_mul_by_zero_is_zero(self.table().width() as int);
        }
        TableEnumerate { iter: self, row_count: 0, column_count: 0 }
    }

    /// Pairs every remaining element with grid coordinates counted from
    /// `start == (row, column)`.
    pub fn enumerate_2d_from(self, start: (usize, usize)) -> (en: TableEnumerate<'a, T>)
        requires
            self.wf(),
            (start.0 as int) * (self.table().width() as int) + (start.1 as int) + (
            self.table()@.len() - self.pos() as int) <= usize::MAX as int,
        ensures
            en.inv(),
            en.table() == self.table(),
            en.pos() == self.pos(),
            en.row() == start.0,
            en.col() == start.1,
    {
        let (row_start, column_start) = start;
        TableEnumerate { iter: self, row_count: row_start, column_count: column_start }
    }

    /// Pairs every remaining element with grid coordinates counted from the
    /// cell at linear position `index`.
    pub fn enumerate_2d_from_index(self, index: usize) -> (en: TableEnumerate<'a, T>)
        requires
            self.wf(),
            self.table().width() > 0,
            index + self.table()@.len() <= usize::MAX,
        ensures
            en.inv(),
            en.table() == self.table(),
            en.pos() == self.pos(),
            en.row() as int == index as int / self.table().width() as int,
            en.col() as int == index as int % self.table().width() as int,
            index == self.pos() ==> en.aligned(),
    {
        let width = self.table.dimensions.0;
        let row_start = index / width;
        let column_start = index % width;
        proof {
            lemma_fundamental_div_mod(index as int, width as int);
            lemma_mul_is_commutative(width as int, index as int / width as int);
        }
        TableEnumerate { iter: self, row_count: row_start, column_count: column_start }
    }
}

/// An owning cursor that hands out the elements of a [`Table`] in row-major
/// order.
pub struct TableIntoIter<T> {
    table: Table<T>,
    pos: usize,
}

impl<T> TableIntoIter<T> {
    /// The grid being walked.
    pub closed spec fn table(&self) -> Table<T> {
        self.table
    }

    /// How many elements have been handed out.
    pub closed spec fn pos(&self) -> usize {
        self.pos
    }

    /// The cursor points at an element or one past the last.
    pub open spec fn wf(&self) -> bool {
        &&& self.table().wf()
        &&& self.pos() <= self.table()@.len()
    }

    /// The next element in row-major order, or `None` once all have been
    /// handed out.
    pub fn next(&mut self) -> (r: Option<T>) where T: Copy
        requires
            old(self).wf(),
        ensures
            final(self).wf(),
            final(self).table() == old(self).table(),
            old(self).pos() < old(self).table()@.len() ==> {
                &&& r == Some(old(self).table()@[old(self).pos() as int])
                &&& final(self).pos() == old(self).pos() + 1
            },
            old(self).pos() == old(self).table()@.len() ==> {
                &&& r is None
                &&& final(self).pos() == old(self).pos()
            },
    {
        if self.pos < self.table.data.len() {
            let value = self.table.data[self.pos];
            self.pos = self.pos + 1;
            Some(value)
        } else {
            None
        }
    }
}

/// Row advance of a row-major walk: the row after yielding at `(row, col)` in
/// a grid `width` columns wide.
pub open spec fn step_row(row: int, col: int, width: int) -> int {
    if col + 1 == width {
        row + 1
    } else {
        row
    }
}

/// Column advance of a row-major walk: the column after yielding at column
/// `col` in a grid `width` columns wide.
pub open spec fn step_col(col: int, width: int) -> int {
    if col + 1 == width {
        0
    } else {
        col + 1
    }
}

/// A cursor that yields `((row, column), element)` pairs: the elements of a
/// [`Table`] in row-major order, each with the coordinates of a row-major
/// walk counted from a chosen starting coordinate.
pub struct TableEnumerate<'a, T> {
    iter: TableIter<'a, T>,
    row_count: usize,
    column_count: usize,
}

impl<'a, T> TableEnumerate<'a, T> {
    /// The grid being walked.
    pub closed spec fn table(&self) -> Table<T> {
        self.iter.table()
    }

    /// How many elements have been handed out.
    pub closed spec fn pos(&self) -> usize {
        self.iter.pos()
    }

    /// Row of the coordinate to be attached to the next element.
    pub closed spec fn row(&self) -> usize {
        self.row_count
    }

    /// Column of the coordinate to be attached to the next element.
    pub closed spec fn col(&self) -> usize {
        self.column_count
    }

    /// The cursor is inside the grid and its counters cannot overflow: the
    /// linear position of the counted coordinate, plus the elements still to
    /// come, fits in `usize`.
    pub open spec fn inv(&self) -> bool {
        &&& self.table().wf()
        &&& self.pos() <= self.table()@.len()
        &&& (self.row() as int) * (self.table().width() as int) + (self.col() as int) + (
        self.table()@.len() - self.pos() as int) <= usize::MAX as int
    }

    /// The counted coordinate is the true grid coordinate of the element the
    /// cursor points at: counting started at the cursor's own cell.
    pub open spec fn aligned(&self) -> bool {
        &&& (self.row() as int) * (self.table().width() as int) + (self.col() as int)
            == self.pos() as int
        &&& self.pos() < self.table()@.len() ==> (self.col() as int) < (
        self.table().width() as int)
    }

    /// The next element with its counted coordinate, or `None` once all
    /// elements have been handed out.  On an aligned cursor the coordinate is
    /// the element's true grid position, `(pos / width, pos % width)`.
    pub fn next(&mut self) -> (r: Option<((usize, usize), T)>) where T: Copy
        requires
            old(self).inv(),
        ensures
            final(self).inv(),
            final(self).table() == old(self).table(),
            old(self).pos() < old(self).table()@.len() ==> {
                &&& r == Some(
                    ((old(self).row(), old(self).col()), old(self).table()@[old(self).pos() as int]),
                )
                &&& final(self).pos() == old(self).pos() + 1
                &&& final(self).row() as int == step_row(
                    old(self).row() as int,
                    old(self).col() as int,
                    old(self).table().width() as int,
                )
                &&& final(self).col() as int == step_col(
                    old(self).col() as int,
                    old(self).table().width() as int,
                )
            },
            old(self).pos() == old(self).table()@.len() ==> {
                &&& r is None
                &&& final(self).pos() == old(self).pos()
                &&& final(self).row() == old(self).row()
                &&& final(self).col() == old(self).col()
            },
            old(self).aligned() ==> final(self).aligned(),
            old(self).aligned() && old(self).pos() < old(self).table()@.len() ==> {
                &&& old(self).row() as int == old(self).pos() as int / old(
                    self,
                ).table().width() as int
                &&& old(self).col() as int == old(self).pos() as int % old(
                    self,
                ).table().width() as int
            },
    {
        let width = self.iter.table.dimensions.0;
        let ghost prior = *self;
        match self.iter.next() {
            Some(value) => {
                let current = (self.row_count, self.column_count);
                proof {
                    assert((prior.row() as int) * (width as int) >= 0) by (nonlinear_arith)
                        requires
                            0 <= prior.row() as int,
                            0 <= width as int,
                    ;
                }
                self.column_count = self.column_count + 1;
                if self.column_count == width {
                    proof {
                        assert((prior.row() as int + 1) * (width as int) == (prior.row() as int) * (
                        width as int) + (width as int)) by (nonlinear_arith);
                        assert(prior.row() as int <= (prior.row() as int) * (width as int))
                            by (nonlinear_arith)
                            requires
                                0 <= prior.row() as int,
                                1 <= width as int,
                        ;
                    }
                    self.row_count = self.row_count + 1;
                    self.column_count = 0;
                }
                proof {
                    if prior.aligned() {
                        lemma_fundamental_div_mod_converse(
                            prior.pos() as int,
                            width as int,
                            prior.row() as int,
                            prior.col() as int,
                        );
                    }
                }
                Some((current, value))
            },
            None => None,
        }
    }
}

} // verus!

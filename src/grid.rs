use vstd::prelude::*;
use vstd::std_specs::iter::IteratorSpec;

use crate::error::Error;
use crate::layout::{
    all_len, cloned_nested, cloned_seq, column_major_indices, column_major_offset,
    column_major_to_row_major, column_of, columns_of, currents, derefs, derefs_nested, first_len,
    flatten_rows, lemma_column_major_bounds, lemma_decode, lemma_decode_column_major,
    lemma_flatten_take, lemma_offset, lemma_row_start, lemma_transpose_source, nested,
    row_major_indices, row_major_to_column_major, row_of, rows_of, transpose_columns,
};

verus! {

/// A rectangular grid of `num_rows` by `num_columns` elements, kept in one
/// row-major buffer.
#[derive(Debug, Clone, PartialEq, Eq, Hash)]
pub struct Vecgrid<T> {
    vecgrid: Vec<T>,
    num_rows: usize,
    num_columns: usize,
}

impl<T> View for Vecgrid<T> {
    type V = Seq<T>;

    /// The buffer in row-major order.
    closed spec fn view(&self) -> Seq<T> {
        self.vecgrid@
    }
}

impl<T> Vecgrid<T> {
    /// Number of rows.
    pub closed spec fn rows(&self) -> nat {
        self.num_rows as nat
    }

    /// Number of columns.
    pub closed spec fn cols(&self) -> nat {
        self.num_columns as nat
    }

    /// The buffer holds exactly one element per cell.
    pub open spec fn wf(&self) -> bool {
        self@.len() == self.rows() * self.cols()
    }

    /// Builds a grid from its rows, which must all have the same length (else
    /// `DimensionMismatch`). No rows give a grid with no columns either.
    pub fn from_rows(rows: Vec<Vec<T>>) -> (r: Result<Self, Error>)
        requires
            rows@.len() * first_len(nested(rows@)) <= usize::MAX,
        ensures
            all_len(nested(rows@), first_len(nested(rows@))) <==> r is Ok,
            r is Err ==> r == Err::<Self, Error>(Error::DimensionMismatch),
            r matches Ok(g) ==> {
                &&& g.wf()
                &&& g.rows() == rows@.len()
                &&& g.cols() == first_len(nested(rows@))
                &&& g@ == flatten_rows(nested(rows@), g.cols())
            },
    {
        let row_len = if rows.len() == 0 {
            0
        } else {
            rows[0].len()
        };
        let mut grid = Vecgrid { vecgrid: Vec::new(), num_rows: 0, num_columns: row_len };
        assert(grid.wf()) by {
            assert(0 * row_len == 0);
        }
        match grid.append_rows(rows) {
            Ok(()) => {
                assert(Seq::<T>::empty() + flatten_rows(nested(rows@), row_len as nat) =~= flatten_rows(
                    nested(rows@),
                    row_len as nat,
                ));
                Ok(grid)
            },
            Err(e) => Err(e),
        }
    }

    /// Builds a grid from its columns, which must all have the same length
    /// (else `DimensionMismatch`).
    pub fn from_columns(columns: Vec<Vec<T>>) -> (r: Result<Self, Error>)
        requires
            columns@.len() * first_len(nested(columns@)) <= usize::MAX,
        ensures
            all_len(nested(columns@), first_len(nested(columns@))) <==> r is Ok,
            r is Err ==> r == Err::<Self, Error>(Error::DimensionMismatch),
            r matches Ok(g) ==> {
                &&& g.wf()
                &&& g.rows() == first_len(nested(columns@))
                &&& g.cols() == columns@.len()
                &&& g@ == transpose_columns(nested(columns@), g.rows())
            },
    {
        let ghost cs = nested(columns@);
        let num_columns = columns.len();
        let num_rows = if num_columns == 0 {
            0
        } else {
            columns[0].len()
        };
        let mut j: usize = 0;
        while j < num_columns
            invariant
                j <= num_columns,
                num_columns == cs.len(),
                cs == nested(columns@),
                num_rows == first_len(cs),
                forall|t: int| 0 <= t < j ==> (#[trigger] cs[t]).len() == num_rows,
            decreases num_columns - j,
        {
            if columns[j].len() != num_rows {
                assert(cs[j as int].len() != num_rows);
                return Err(Error::DimensionMismatch);
            }
            j += 1;
        }
        // Laying the columns end to end gives the grid in column-major order.
        let mut column_major: Vec<T> = Vec::new();
        for column in it: columns.into_iter()
            invariant
                it.seq() == columns@,
                cs == nested(columns@),
                all_len(cs, num_rows as nat),
                num_columns == cs.len(),
                column_major@ == flatten_rows(cs.take(it.index() as int), num_rows as nat),
        {
            proof {
                lemma_flatten_take(cs, it.index() as int, num_rows as nat);
                assert(cs[it.index() as int] == column@);
            }
            let mut column = column;
            column_major.append(&mut column);
        }
        assert(cs.take(num_columns as int) =~= cs);
        assert(num_rows * num_columns == num_columns * num_rows) by (nonlinear_arith);
        let vecgrid = transpose_by_move(column_major, num_rows, num_columns);
        assert forall|k: int| 0 <= k < vecgrid@.len() implies #[trigger] vecgrid@[k] == transpose_columns(cs, num_rows as nat)[k] by {
            lemma_decode(k, num_rows as int, num_columns as int);
            lemma_offset(k % num_columns as int, k / num_columns as int, num_columns as int, num_rows as int);
        }
        assert(vecgrid@ =~= transpose_columns(cs, num_rows as nat));
        Ok(Vecgrid { vecgrid, num_rows, num_columns })
    }

    /// Builds a grid from a flat buffer in row-major order. Fails with
    /// `DimensionMismatch` unless the buffer holds `num_rows * num_columns` elements.
    pub fn from_row_major(elements: Vec<T>, num_rows: usize, num_columns: usize) -> (r: Result<Self, Error>)
        ensures
            elements@.len() == num_rows * num_columns <==> r is Ok,
            r is Err ==> r == Err::<Self, Error>(Error::DimensionMismatch),
            r matches Ok(g) ==> g.wf() && g.rows() == num_rows && g.cols() == num_columns && g@ == elements@,
    {
        let len = elements.len();
        match num_rows.checked_mul(num_columns) {
            Some(total) => {
                if total == len {
                    Ok(Vecgrid { vecgrid: elements, num_rows, num_columns })
                } else {
                    Err(Error::DimensionMismatch)
                }
            },
            None => Err(Error::DimensionMismatch),
        }
    }

    /// Builds a grid from a flat buffer in column-major order. Fails with
    /// `DimensionMismatch` unless the buffer holds `num_rows * num_columns` elements.
    pub fn from_column_major(elements: Vec<T>, num_rows: usize, num_columns: usize) -> (r: Result<
        Self,
        Error,
    >)
        ensures
            elements@.len() == num_rows * num_columns <==> r is Ok,
            r is Err ==> r == Err::<Self, Error>(Error::DimensionMismatch),
            r matches Ok(g) ==> {
                &&& g.wf()
                &&& g.rows() == num_rows
                &&& g.cols() == num_columns
                &&& g@ == column_major_to_row_major(elements@, num_rows as nat, num_columns as nat)
            },
    {
        let len = elements.len();
        let total = match num_rows.checked_mul(num_columns) {
            Some(total) => total,
            None => return Err(Error::DimensionMismatch),
        };
        if total != len {
            return Err(Error::DimensionMismatch);
        }
        let vecgrid = transpose_by_move(elements, num_rows, num_columns);
        Ok(Vecgrid { vecgrid, num_rows, num_columns })
    }

    /// A `num_rows` by `num_columns` grid with a clone of `element` in every cell.
    pub fn filled_with(element: T, num_rows: usize, num_columns: usize) -> (g: Self) where T: Clone
        requires
            num_rows * num_columns <= usize::MAX,
        ensures
            g.wf(),
            g.rows() == num_rows,
            g.cols() == num_columns,
            forall|k: int| 0 <= k < g@.len() ==> cloned(element, #[trigger] g@[k]),
    {
        let total = num_rows * num_columns;
        let vecgrid = vec![element; total];
        Vecgrid { vecgrid, num_rows, num_columns }
    }

    /// A `num_rows` by `num_columns` grid whose cells are the results of calling
    /// `generator` once per cell, in row-major order.
    pub fn filled_by_row_major<F: FnMut() -> T>(generator: F, num_rows: usize, num_columns: usize) -> (g: Self)
        requires
            num_rows * num_columns <= usize::MAX,
            call_requires(generator, ()),
        ensures
            g.wf(),
            g.rows() == num_rows,
            g.cols() == num_columns,
            forall|k: int| 0 <= k < g@.len() ==> call_ensures(generator, (), #[trigger] g@[k]),
    {
        let vecgrid = generate(generator, num_rows * num_columns);
        Vecgrid { vecgrid, num_rows, num_columns }
    }

    /// A `num_rows` by `num_columns` grid whose cells are the results of calling
    /// `generator` once per cell, in column-major order: cell (r, c) holds the
    /// result of call number `c * num_rows + r`.
    pub fn filled_by_column_major<F: FnMut() -> T>(generator: F, num_rows: usize, num_columns: usize) -> (g: Self)
        requires
            num_rows * num_columns <= usize::MAX,
            call_requires(generator, ()),
        ensures
            g.wf(),
            g.rows() == num_rows,
            g.cols() == num_columns,
            forall|k: int| 0 <= k < g@.len() ==> call_ensures(generator, (), #[trigger] g@[k]),
    {
        let generated = generate(generator, num_rows * num_columns);
        let ghost e = generated@;
        let vecgrid = transpose_by_move(generated, num_rows, num_columns);
        assert forall|k: int| 0 <= k < vecgrid@.len() implies call_ensures(generator, (), #[trigger] vecgrid@[k]) by {
            lemma_transpose_source(k, num_rows as int, num_columns as int);
            assert(vecgrid@[k] == e[(k % num_columns as int) * num_rows + k / num_columns as int]);
        }
        Vecgrid { vecgrid, num_rows, num_columns }
    }

    /// Fills a `num_rows` by `num_columns` grid, in row-major order, with the
    /// first `num_rows * num_columns` items of `iterator`; pulls no more than
    /// that. Fails with `NotEnoughElements` if the iterator ends sooner.
    pub fn from_iter_row_major<I: Iterator<Item = T>>(iterator: I, num_rows: usize, num_columns: usize) -> (r:
        Result<Self, Error>)
        requires
            num_rows * num_columns <= usize::MAX,
        ensures
            r is Err ==> r == Err::<Self, Error>(Error::NotEnoughElements),
            r matches Ok(g) ==> g.wf() && g.rows() == num_rows && g.cols() == num_columns,
            iterator.obeys_prophetic_iter_laws() ==> (r is Ok <==> iterator.remaining().len() >= num_rows * num_columns),
            iterator.obeys_prophetic_iter_laws() ==> (r matches Ok(g) ==> g@ == iterator.remaining().take(num_rows * num_columns)),
    {
        let buffer = take_exactly(iterator, num_rows * num_columns);
        match buffer {
            Some(buffer) => Ok(Vecgrid { vecgrid: buffer, num_rows, num_columns }),
            None => Err(Error::NotEnoughElements),
        }
    }

    /// Fills a `num_rows` by `num_columns` grid, in column-major order, with the
    /// first `num_rows * num_columns` items of `iterator`; pulls no more than
    /// that. Fails with `NotEnoughElements` if the iterator ends sooner.
    pub fn from_iter_column_major<I: Iterator<Item = T>>(iterator: I, num_rows: usize, num_columns: usize) -> (r:
        Result<Self, Error>)
        requires
            num_rows * num_columns <= usize::MAX,
        ensures
            r is Err ==> r == Err::<Self, Error>(Error::NotEnoughElements),
            r matches Ok(g) ==> g.wf() && g.rows() == num_rows && g.cols() == num_columns,
            iterator.obeys_prophetic_iter_laws() ==> (r is Ok <==> iterator.remaining().len() >= num_rows * num_columns),
            iterator.obeys_prophetic_iter_laws() ==> (r matches Ok(g) ==> g@ == column_major_to_row_major(
                iterator.remaining().take(num_rows * num_columns),
                num_rows as nat,
                num_columns as nat,
            )),
    {
        match take_exactly(iterator, num_rows * num_columns) {
            Some(buffer) => match Vecgrid::from_column_major(buffer, num_rows, num_columns) {
                Ok(g) => Ok(g),
                Err(_) => Err(Error::NotEnoughElements),
            },
            None => Err(Error::NotEnoughElements),
        }
    }

    /// The number of rows.
    pub fn num_rows(&self) -> (r: usize)
        ensures
            r == self.rows(),
    {
        self.num_rows
    }

    /// The number of columns.
    pub fn num_columns(&self) -> (r: usize)
        ensures
            r == self.cols(),
    {
        self.num_columns
    }

    /// The number of cells: `num_rows * num_columns`.
    pub fn num_elements(&self) -> (r: usize)
        requires
            self.wf(),
        ensures
            r == self.rows() * self.cols(),
            r == self@.len(),
    {
        self.vecgrid.len()
    }

    /// The length of each row, which is the number of columns.
    pub fn row_len(&self) -> (r: usize)
        ensures
            r == self.cols(),
    {
        self.num_columns
    }

    /// The length of each column, which is the number of rows.
    pub fn column_len(&self) -> (r: usize)
        ensures
            r == self.rows(),
    {
        self.num_rows
    }

    /// The buffer offset of (`row`, `column`), if that cell exists.
    fn get_index(&self, row: usize, column: usize) -> (r: Option<usize>)
        requires
            self.wf(),
        ensures
            r is Some <==> row < self.rows() && column < self.cols(),
            r matches Some(i) ==> i == row * self.cols() + column && i < self@.len(),
    {
        if row < self.num_rows && column < self.num_columns {
            proof {
                lemma_offset(row as int, column as int, self.num_rows as int, self.num_columns as int);
                assert(self.vecgrid.len() == self@.len());
            }
            Some(row * self.num_columns + column)
        } else {
            None
        }
    }

    /// The cell at (`row`, `column`), or `None` outside the grid.
    pub fn get(&self, row: usize, column: usize) -> (r: Option<&T>)
        requires
            self.wf(),
        ensures
            r is Some <==> row < self.rows() && column < self.cols(),
            r matches Some(x) ==> *x == self@[row * self.cols() + column],
    {
        match self.get_index(row, column) {
            Some(i) => Some(&self.vecgrid[i]),
            None => None,
        }
    }

    /// The cell at row-major position `index`, or `None` outside the grid.
    pub fn get_row_major(&self, index: usize) -> (r: Option<&T>)
        requires
            self.wf(),
        ensures
            r is Some <==> index < self@.len(),
            r matches Some(x) ==> *x == self@[index as int],
    {
        if index < self.vecgrid.len() {
            Some(&self.vecgrid[index])
        } else {
            None
        }
    }

    /// The cell at column-major position `index`, or `None` outside the grid.
    pub fn get_column_major(&self, index: usize) -> (r: Option<&T>)
        requires
            self.wf(),
        ensures
            r is Some <==> index < self@.len(),
            r matches Some(x) ==> *x == row_major_to_column_major(self@, self.rows(), self.cols())[index as int],
    {
        if self.num_rows == 0 {
            assert(self.num_rows as int * self.num_columns as int == 0) by (nonlinear_arith)
                requires
                    self.num_rows == 0,
            ;
            return None;
        }
        proof {
            lemma_column_major_bounds(index as int, self.num_rows as int, self.num_columns as int);
        }
        let column = index / self.num_rows;
        let row = index % self.num_rows;
        self.get(row, column)
    }

    /// A mutable reference to the cell at (`row`, `column`), or `None` outside the grid.
    pub fn get_mut(&mut self, row: usize, column: usize) -> (r: Option<&mut T>)
        requires
            old(self).wf(),
        ensures
            r is Some <==> row < old(self).rows() && column < old(self).cols(),
            final(self).rows() == old(self).rows(),
            final(self).cols() == old(self).cols(),
            r is None ==> final(self)@ == old(self)@,
            r matches Some(x) ==> {
                &&& *x == old(self)@[row * old(self).cols() + column]
                &&& final(self)@ == old(self)@.update(row * old(self).cols() + column, *final(x))
            },
    {
        match self.get_index(row, column) {
            Some(i) => Some(&mut self.vecgrid[i]),
            None => None,
        }
    }

    /// A mutable reference to the cell at row-major position `index`, or `None`
    /// outside the grid.
    pub fn get_mut_row_major(&mut self, index: usize) -> (r: Option<&mut T>)
        requires
            old(self).wf(),
        ensures
            r is Some <==> index < old(self)@.len(),
            final(self).rows() == old(self).rows(),
            final(self).cols() == old(self).cols(),
            r is None ==> final(self)@ == old(self)@,
            r matches Some(x) ==> {
                &&& *x == old(self)@[index as int]
                &&& final(self)@ == old(self)@.update(index as int, *final(x))
            },
    {
        if index < self.vecgrid.len() {
            Some(&mut self.vecgrid[index])
        } else {
            None
        }
    }

    /// A mutable reference to the cell at column-major position `index`, or
    /// `None` outside the grid.
    pub fn get_mut_column_major(&mut self, index: usize) -> (r: Option<&mut T>)
        requires
            old(self).wf(),
        ensures
            r is Some <==> index < old(self)@.len(),
            final(self).rows() == old(self).rows(),
            final(self).cols() == old(self).cols(),
            r is None ==> final(self)@ == old(self)@,
            r matches Some(x) ==> {
                &&& *x == row_major_to_column_major(old(self)@, old(self).rows(), old(self).cols())[index as int]
                &&& final(self)@ == old(self)@.update(
                    column_major_offset(index as int, old(self).rows(), old(self).cols()),
                    *final(x),
                )
            },
    {
        if self.num_rows == 0 {
            assert(self.num_rows as int * self.num_columns as int == 0) by (nonlinear_arith)
                requires
                    self.num_rows == 0,
            ;
            return None;
        }
        proof {
            lemma_column_major_bounds(index as int, self.num_rows as int, self.num_columns as int);
        }
        let column = index / self.num_rows;
        let row = index % self.num_rows;
        self.get_mut(row, column)
    }

    /// Stores `element` at (`row`, `column`). Fails with
    /// `IndicesOutOfBounds(row, column)` outside the grid, changing nothing.
    pub fn set(&mut self, row: usize, column: usize, element: T) -> (r: Result<(), Error>)
        requires
            old(self).wf(),
        ensures
            final(self).wf(),
            final(self).rows() == old(self).rows(),
            final(self).cols() == old(self).cols(),
            r is Ok <==> row < old(self).rows() && column < old(self).cols(),
            r is Ok ==> final(self)@ == old(self)@.update(row * old(self).cols() + column, element),
            r is Err ==> final(self)@ == old(self)@ && r == Err::<(), Error>(Error::IndicesOutOfBounds(row, column)),
    {
        match self.get_index(row, column) {
            Some(i) => {
                self.vecgrid.set(i, element);
                Ok(())
            },
            None => Err(Error::IndicesOutOfBounds(row, column)),
        }
    }

    /// Stores `element` at row-major position `index`. Fails with
    /// `IndexOutOfBounds(index)` outside the grid, changing nothing.
    pub fn set_row_major(&mut self, index: usize, element: T) -> (r: Result<(), Error>)
        requires
            old(self).wf(),
        ensures
            final(self).wf(),
            final(self).rows() == old(self).rows(),
            final(self).cols() == old(self).cols(),
            r is Ok <==> index < old(self)@.len(),
            r is Ok ==> final(self)@ == old(self)@.update(index as int, element),
            r is Err ==> final(self)@ == old(self)@ && r == Err::<(), Error>(Error::IndexOutOfBounds(index)),
    {
        if index < self.vecgrid.len() {
            self.vecgrid.set(index, element);
            Ok(())
        } else {
            Err(Error::IndexOutOfBounds(index))
        }
    }

    /// Stores `element` at column-major position `index`. Fails with
    /// `IndexOutOfBounds(index)` outside the grid, changing nothing.
    pub fn set_column_major(&mut self, index: usize, element: T) -> (r: Result<(), Error>)
        requires
            old(self).wf(),
        ensures
            final(self).wf(),
            final(self).rows() == old(self).rows(),
            final(self).cols() == old(self).cols(),
            r is Ok <==> index < old(self)@.len(),
            r is Ok ==> final(self)@ == old(self)@.update(
                column_major_offset(index as int, old(self).rows(), old(self).cols()),
                element,
            ),
            r is Err ==> final(self)@ == old(self)@ && r == Err::<(), Error>(Error::IndexOutOfBounds(index)),
    {
        if self.num_rows == 0 {
            assert(self.num_rows as int * self.num_columns as int == 0) by (nonlinear_arith)
                requires
                    self.num_rows == 0,
            ;
            return Err(Error::IndexOutOfBounds(index));
        }
        proof {
            lemma_column_major_bounds(index as int, self.num_rows as int, self.num_columns as int);
        }
        let column = index / self.num_rows;
        let row = index % self.num_rows;
        match self.get_index(row, column) {
            Some(i) => {
                self.vecgrid.set(i, element);
                Ok(())
            },
            None => Err(Error::IndexOutOfBounds(index)),
        }
    }

    /// References to every cell, in row-major order.
    pub fn elements_row_major_iter(&self) -> (r: Vec<&T>)
        requires
            self.wf(),
        ensures
            derefs(r@) == self@,
    {
        let n = self.vecgrid.len();
        let mut r: Vec<&T> = Vec::new();
        let mut k: usize = 0;
        while k < n
            invariant
                k <= n,
                n == self@.len(),
                r@.len() == k,
                forall|t: int| 0 <= t < k ==> *(#[trigger] r@[t]) == self@[t],
            decreases n - k,
        {
            r.push(&self.vecgrid[k]);
            k += 1;
        }
        assert(derefs(r@) =~= self@);
        r
    }

    /// Mutable references to every cell, in row-major order. What is stored
    /// through them is what the grid holds afterwards.
    pub fn elements_row_major_iter_mut(&mut self) -> (r: Vec<&mut T>)
        requires
            old(self).wf(),
        ensures
            currents(r@) == old(self)@,
            final(self)@ == Seq::new(r@.len(), |k: int| *final(r@[k])),
            final(self).rows() == old(self).rows(),
            final(self).cols() == old(self).cols(),
    {
        cell_refs(&mut self.vecgrid)
    }

    /// References to every cell, in column-major order.
    pub fn elements_column_major_iter(&self) -> (r: Vec<&T>)
        requires
            self.wf(),
        ensures
            derefs(r@) == row_major_to_column_major(self@, self.rows(), self.cols()),
    {
        let (nr, nc) = (self.num_rows, self.num_columns);
        let mut r: Vec<&T> = Vec::new();
        let mut column: usize = 0;
        proof {
            assert(self.vecgrid.len() == self@.len());
        }
        while column < nc
            invariant
                self@.len() <= usize::MAX,
                self.wf(),
                nr == self.rows(),
                nc == self.cols(),
                column <= nc,
                r@.len() == column * nr,
                forall|t: int| 0 <= t < r@.len() ==> *(#[trigger] r@[t]) == self@[column_major_offset(t, self.rows(), self.cols())],
            decreases nc - column,
        {
            let mut row: usize = 0;
            while row < nr
                invariant
                    self@.len() <= usize::MAX,
                    self.wf(),
                    nr == self.rows(),
                    nc == self.cols(),
                    column < nc,
                    row <= nr,
                    r@.len() == column * nr + row,
                    forall|t: int| 0 <= t < r@.len() ==> *(#[trigger] r@[t]) == self@[column_major_offset(t, self.rows(), self.cols())],
                decreases nr - row,
            {
                proof {
                    lemma_offset(row as int, column as int, nr as int, nc as int);
                    lemma_offset(column as int, row as int, nc as int, nr as int);
                }
                r.push(&self.vecgrid[row * nc + column]);
                row += 1;
            }
            proof {
                assert((column + 1) * nr == column * nr + nr) by (nonlinear_arith);
            }
            column += 1;
        }
        assert(nc * nr == nr * nc) by (nonlinear_arith);
        assert(derefs(r@) =~= row_major_to_column_major(self@, self.rows(), self.cols()));
        r
    }

    /// Mutable references to every cell, in column-major order. What is
    /// stored through them is what the grid holds afterwards.
    pub fn elements_column_major_iter_mut(&mut self) -> (r: Vec<&mut T>)
        requires
            old(self).wf(),
        ensures
            currents(r@) == row_major_to_column_major(old(self)@, old(self).rows(), old(self).cols()),
            final(self)@ == column_major_to_row_major(
                Seq::new(r@.len(), |k: int| *final(r@[k])),
                old(self).rows(),
                old(self).cols(),
            ),
            final(self).rows() == old(self).rows(),
            final(self).cols() == old(self).cols(),
    {
        let (nr, nc) = (self.num_rows, self.num_columns);
        let ghost b = self@;
        let all = cell_refs(&mut self.vecgrid);
        let ghost a = all@;
        assert(nr * nc == nc * nr) by (nonlinear_arith);
        let r = transpose_by_move(all, nc, nr);
        proof {
            assert forall|k: int| 0 <= k < r@.len() implies #[trigger] r@[k] == a[column_major_offset(k, nr as nat, nc as nat)] by {
                lemma_decode_column_major(k, nr as int, nc as int);
            }
            assert forall|k: int| 0 <= k < r@.len() implies currents(r@)[k] == row_major_to_column_major(b, nr as nat, nc as nat)[k] by {
                lemma_decode_column_major(k, nr as int, nc as int);
                assert(currents(a)[column_major_offset(k, nr as nat, nc as nat)] == b[column_major_offset(k, nr as nat, nc as nat)]);
            }
            assert(currents(r@) =~= row_major_to_column_major(b, nr as nat, nc as nat));
            assert forall|t: int| 0 <= t < a.len() implies a[t] == r@[(t % nc as int) * nr + t / nc as int] by {
                lemma_transpose_source(t, nr as int, nc as int);
            }
            assert(after_borrow(self.vecgrid)@ == Seq::new(a.len(), |k: int| *final(a[k])));
            assert forall|t: int| 0 <= t < a.len() implies #[trigger] after_borrow(self.vecgrid)@[t] == column_major_to_row_major(
                Seq::new(r@.len(), |k: int| *final(r@[k])),
                nr as nat,
                nc as nat,
            )[t] by {
                lemma_transpose_source(t, nr as int, nc as int);
                assert(r@[(t % nc as int) * nr + t / nc as int] == a[t]);
            }
            assert(after_borrow(self.vecgrid)@ =~= column_major_to_row_major(
                Seq::new(r@.len(), |k: int| *final(r@[k])),
                nr as nat,
                nc as nat,
            ));
        }
        r
    }

    /// References to the cells of row `i`, left to right.
    fn row_refs(&self, i: usize) -> (r: Vec<&T>)
        requires
            self.wf(),
            i < self.rows(),
        ensures
            derefs(r@) == row_of(self@, self.cols(), i as int),
    {
        let c = self.num_columns;
        let mut r: Vec<&T> = Vec::new();
        let mut j: usize = 0;
        proof {
            assert(self.vecgrid.len() == self@.len());
        }
        while j < c
            invariant
                self@.len() <= usize::MAX,
                self.wf(),
                i < self.rows(),
                c == self.cols(),
                j <= c,
                r@.len() == j,
                forall|t: int| 0 <= t < j ==> *(#[trigger] r@[t]) == self@[i * c + t],
            decreases c - j,
        {
            proof {
                lemma_offset(i as int, j as int, self.rows() as int, c as int);
            }
            r.push(&self.vecgrid[i * c + j]);
            j += 1;
        }
        assert(derefs(r@) =~= row_of(self@, self.cols(), i as int));
        r
    }

    /// References to the cells of column `j`, top to bottom.
    fn column_refs(&self, j: usize) -> (r: Vec<&T>)
        requires
            self.wf(),
            j < self.cols(),
        ensures
            derefs(r@) == column_of(self@, self.rows(), self.cols(), j as int),
    {
        let (nr, nc) = (self.num_rows, self.num_columns);
        let mut r: Vec<&T> = Vec::new();
        let mut i: usize = 0;
        proof {
            assert(self.vecgrid.len() == self@.len());
        }
        while i < nr
            invariant
                self@.len() <= usize::MAX,
                self.wf(),
                j < nc,
                nr == self.rows(),
                nc == self.cols(),
                i <= nr,
                r@.len() == i,
                forall|t: int| 0 <= t < i ==> *(#[trigger] r@[t]) == self@[t * nc + j],
            decreases nr - i,
        {
            proof {
                lemma_offset(i as int, j as int, nr as int, nc as int);
            }
            r.push(&self.vecgrid[i * nc + j]);
            i += 1;
        }
        assert(derefs(r@) =~= column_of(self@, self.rows(), self.cols(), j as int));
        r
    }

    /// References to the cells of row `row_index`, left to right. Fails with
    /// `IndicesOutOfBounds(row_index, 0)` when there is no such row.
    pub fn row_iter(&self, row_index: usize) -> (r: Result<Vec<&T>, Error>)
        requires
            self.wf(),
        ensures
            r is Ok <==> row_index < self.rows(),
            r matches Ok(v) ==> derefs(v@) == row_of(self@, self.cols(), row_index as int),
            r is Err ==> r == Err::<Vec<&T>, Error>(Error::IndicesOutOfBounds(row_index, 0)),
    {
        if row_index >= self.num_rows {
            return Err(Error::IndicesOutOfBounds(row_index, 0));
        }
        Ok(self.row_refs(row_index))
    }

    /// Mutable references to the cells of row `row_index`, left to right.
    /// Fails with `IndicesOutOfBounds(row_index, 0)` when there is no such row,
    /// changing nothing; otherwise only that row can change.
    pub fn row_iter_mut(&mut self, row_index: usize) -> (r: Result<Vec<&mut T>, Error>)
        requires
            old(self).wf(),
        ensures
            r is Ok <==> row_index < old(self).rows(),
            r is Err ==> r == Err::<Vec<&mut T>, Error>(Error::IndicesOutOfBounds(row_index, 0)) && *final(self) == *old(self),
            r matches Ok(v) ==> currents(v@) == row_of(old(self)@, old(self).cols(), row_index as int),
            r matches Ok(v) ==> final(self)@ == Seq::new(
                old(self)@.len(),
                |k: int| if k / old(self).cols() as int == row_index {
                    *final(v@[k % old(self).cols() as int])
                } else {
                    old(self)@[k]
                },
            ),
            final(self).rows() == old(self).rows(),
            final(self).cols() == old(self).cols(),
    {
        if row_index >= self.num_rows {
            return Err(Error::IndicesOutOfBounds(row_index, 0));
        }
        let mut rows = self.rows_iter_mut();
        let ghost all = rows@;
        let row = rows.swap_remove(row_index);
        proof {
            // The other rows are dropped unwritten, so their cells keep their values.
            assert(has_resolved(rows));
            assert forall|t: int, j: int| 0 <= t < all.len() && t != row_index && 0 <= j < all[t]@.len()
                implies *final(#[trigger] all[t]@[j]) == *all[t]@[j] by {
                let p = if t == all.len() - 1 { row_index as int } else { t };
                assert(rows@[p] == all[t]);
                assert(has_resolved(rows@[p]));
                assert(has_resolved(rows@[p]@[j]));
            }
            let c = old(self).cols() as int;
            assert forall|k: int| 0 <= k < old(self)@.len() implies #[trigger] after_borrow(*self)@[k] == if k / c == row_index {
                *final(row@[k % c])
            } else {
                old(self)@[k]
            } by {
                lemma_decode(k, old(self).rows() as int, c);
                let (t, j) = (k / c, k % c);
                assert(currents(all[t]@) == row_of(old(self)@, c as nat, t));
                assert(currents(all[t]@)[j] == *all[t]@[j]);
            }
            assert(after_borrow(*self)@ =~= Seq::new(
                old(self)@.len(),
                |k: int| if k / c == row_index {
                    *final(row@[k % c])
                } else {
                    old(self)@[k]
                },
            ));
        }
        Ok(row)
    }

    /// References to the cells of column `column_index`, top to bottom. Fails
    /// with `IndicesOutOfBounds(0, column_index)` when there is no such column.
    pub fn column_iter(&self, column_index: usize) -> (r: Result<Vec<&T>, Error>)
        requires
            self.wf(),
        ensures
            r is Ok <==> column_index < self.cols(),
            r matches Ok(v) ==> derefs(v@) == column_of(self@, self.rows(), self.cols(), column_index as int),
            r is Err ==> r == Err::<Vec<&T>, Error>(Error::IndicesOutOfBounds(0, column_index)),
    {
        if column_index >= self.num_columns {
            return Err(Error::IndicesOutOfBounds(0, column_index));
        }
        Ok(self.column_refs(column_index))
    }

    /// Mutable references to the cells of column `column_index`, top to
    /// bottom. Fails with `IndicesOutOfBounds(0, column_index)` when there is
    /// no such column, changing nothing; otherwise only that column can change.
    pub fn column_iter_mut(&mut self, column_index: usize) -> (r: Result<Vec<&mut T>, Error>)
        requires
            old(self).wf(),
        ensures
            r is Ok <==> column_index < old(self).cols(),
            r is Err ==> r == Err::<Vec<&mut T>, Error>(Error::IndicesOutOfBounds(0, column_index)) && *final(self) == *old(self),
            r matches Ok(v) ==> currents(v@) == column_of(old(self)@, old(self).rows(), old(self).cols(), column_index as int),
            r matches Ok(v) ==> final(self)@ == Seq::new(
                old(self)@.len(),
                |k: int| if k % old(self).cols() as int == column_index {
                    *final(v@[k / old(self).cols() as int])
                } else {
                    old(self)@[k]
                },
            ),
            final(self).rows() == old(self).rows(),
            final(self).cols() == old(self).cols(),
    {
        if column_index >= self.num_columns {
            return Err(Error::IndicesOutOfBounds(0, column_index));
        }
        let mut columns = self.columns_iter_mut();
        let ghost all = columns@;
        let column = columns.swap_remove(column_index);
        proof {
            // The other columns are dropped unwritten, so their cells keep their values.
            assert(has_resolved(columns));
            assert forall|t: int, i: int| 0 <= t < all.len() && t != column_index && 0 <= i < all[t]@.len()
                implies *final(#[trigger] all[t]@[i]) == *all[t]@[i] by {
                let p = if t == all.len() - 1 { column_index as int } else { t };
                assert(columns@[p] == all[t]);
                assert(has_resolved(columns@[p]));
                assert(has_resolved(columns@[p]@[i]));
            }
            let c = old(self).cols() as int;
            let nr = old(self).rows() as int;
            assert forall|k: int| 0 <= k < old(self)@.len() implies #[trigger] after_borrow(*self)@[k] == if k % c == column_index {
                *final(column@[k / c])
            } else {
                old(self)@[k]
            } by {
                lemma_decode(k, nr, c);
                let (i, t) = (k / c, k % c);
                assert(currents(all[t]@) == column_of(old(self)@, nr as nat, c as nat, t));
                assert(currents(all[t]@)[i] == *all[t]@[i]);
            }
            assert(after_borrow(*self)@ =~= Seq::new(
                old(self)@.len(),
                |k: int| if k % c == column_index {
                    *final(column@[k / c])
                } else {
                    old(self)@[k]
                },
            ));
        }
        Ok(column)
    }

    /// Every row, top to bottom, as references to its cells.
    pub fn rows_iter(&self) -> (r: Vec<Vec<&T>>)
        requires
            self.wf(),
        ensures
            derefs_nested(r@) == rows_of(self@, self.rows(), self.cols()),
    {
        let nr = self.num_rows;
        let mut r: Vec<Vec<&T>> = Vec::new();
        let mut i: usize = 0;
        while i < nr
            invariant
                self.wf(),
                nr == self.rows(),
                i <= nr,
                r@.len() == i,
                forall|t: int| 0 <= t < i ==> derefs((#[trigger] r@[t])@) == row_of(self@, self.cols(), t),
            decreases nr - i,
        {
            r.push(self.row_refs(i));
            i += 1;
        }
        assert(derefs_nested(r@) =~= rows_of(self@, self.rows(), self.cols()));
        r
    }

    /// Every row, top to bottom, as mutable references to its cells.
    pub fn rows_iter_mut(&mut self) -> (r: Vec<Vec<&mut T>>)
        requires
            old(self).wf(),
        ensures
            r@.len() == old(self).rows(),
            forall|i: int| 0 <= i < r@.len() ==> currents((#[trigger] r@[i])@) == row_of(old(self)@, old(self).cols(), i),
            final(self)@ == Seq::new(
                old(self)@.len(),
                |k: int| *final(r@[k / old(self).cols() as int]@[k % old(self).cols() as int]),
            ),
            final(self).rows() == old(self).rows(),
            final(self).cols() == old(self).cols(),
    {
        let (nr, nc) = (self.num_rows, self.num_columns);
        let ghost b = self@;
        let all = cell_refs(&mut self.vecgrid);
        let ghost a = all@;
        let r = chunks(all, nr, nc);
        proof {
            assert forall|i: int| 0 <= i < r@.len() implies currents((#[trigger] r@[i])@) == row_of(b, nc as nat, i) by {
                lemma_row_start(i + 1, nr as int, nc as int);
                assert((i + 1) * nc == i * nc + nc) by (nonlinear_arith);
                assert(r@[i]@ == a.subrange(i * nc, i * nc + nc));
                assert forall|j: int| 0 <= j < nc implies currents(r@[i]@)[j] == row_of(b, nc as nat, i)[j] by {
                    lemma_offset(i, j, nr as int, nc as int);
                    assert(r@[i]@[j] == a[i * nc + j]);
                    assert(currents(a)[i * nc + j] == *a[i * nc + j]);
                }
                assert(currents(r@[i]@) =~= row_of(b, nc as nat, i));
            }
            assert forall|k: int| 0 <= k < a.len() implies a[k] == r@[k / nc as int]@[k % nc as int] by {
                lemma_decode(k, nr as int, nc as int);
                let i = k / nc as int;
                lemma_row_start(i + 1, nr as int, nc as int);
                assert((i + 1) * nc == i * nc + nc) by (nonlinear_arith);
                assert(r@[i]@ == a.subrange(i * nc, i * nc + nc));
            }
        }
        r
    }

    /// Every column, left to right, as references to its cells.
    pub fn columns_iter(&self) -> (r: Vec<Vec<&T>>)
        requires
            self.wf(),
        ensures
            derefs_nested(r@) == columns_of(self@, self.rows(), self.cols()),
    {
        let nc = self.num_columns;
        let mut r: Vec<Vec<&T>> = Vec::new();
        let mut j: usize = 0;
        while j < nc
            invariant
                self.wf(),
                nc == self.cols(),
                j <= nc,
                r@.len() == j,
                forall|t: int| 0 <= t < j ==> derefs((#[trigger] r@[t])@) == column_of(self@, self.rows(), self.cols(), t),
            decreases nc - j,
        {
            r.push(self.column_refs(j));
            j += 1;
        }
        assert(derefs_nested(r@) =~= columns_of(self@, self.rows(), self.cols()));
        r
    }

    /// Every column, left to right, as mutable references to its cells.
    pub fn columns_iter_mut(&mut self) -> (r: Vec<Vec<&mut T>>)
        requires
            old(self).wf(),
        ensures
            r@.len() == old(self).cols(),
            forall|j: int| 0 <= j < r@.len() ==> currents((#[trigger] r@[j])@) == column_of(old(self)@, old(self).rows(), old(self).cols(), j),
            final(self)@ == Seq::new(
                old(self)@.len(),
                |k: int| *final(r@[k % old(self).cols() as int]@[k / old(self).cols() as int]),
            ),
            final(self).rows() == old(self).rows(),
            final(self).cols() == old(self).cols(),
    {
        let (nr, nc) = (self.num_rows, self.num_columns);
        let ghost b = self@;
        let cm = self.elements_column_major_iter_mut();
        let ghost m = cm@;
        assert(nr * nc == nc * nr) by (nonlinear_arith);
        assert(currents(m).len() == m.len());
        let r = chunks(cm, nc, nr);
        proof {
            assert forall|j: int| 0 <= j < r@.len() implies currents((#[trigger] r@[j])@) == column_of(b, nr as nat, nc as nat, j) by {
                lemma_row_start(j + 1, nc as int, nr as int);
                assert((j + 1) * nr == j * nr + nr) by (nonlinear_arith);
                assert(r@[j]@ == m.subrange(j * nr, j * nr + nr));
                assert forall|i: int| 0 <= i < nr implies currents(r@[j]@)[i] == column_of(b, nr as nat, nc as nat, j)[i] by {
                    lemma_offset(j, i, nc as int, nr as int);
                    lemma_offset(i, j, nr as int, nc as int);
                    assert(currents(m)[j * nr + i] == *m[j * nr + i]);
                    assert(currents(m)[j * nr + i] == row_major_to_column_major(b, nr as nat, nc as nat)[j * nr + i]);
                }
                assert(currents(r@[j]@) =~= column_of(b, nr as nat, nc as nat, j));
            }
            assert forall|j: int, i: int| 0 <= j < nc && 0 <= i < nr implies m[j * nr + i] == #[trigger] r@[j]@[i] by {
                lemma_row_start(j + 1, nc as int, nr as int);
                assert((j + 1) * nr == j * nr + nr) by (nonlinear_arith);
                assert(r@[j]@ == m.subrange(j * nr, j * nr + nr));
            }
            assert forall|t: int| 0 <= t < b.len() implies #[trigger] after_borrow(*self)@[t] == *final(r@[t % nc as int]@[t / nc as int]) by {
                lemma_decode(t, nr as int, nc as int);
                lemma_transpose_source(t, nr as int, nc as int);
                assert(m[(t % nc as int) * nr + t / nc as int] == r@[t % nc as int]@[t / nc as int]);
            }
            assert(after_borrow(*self)@ =~= Seq::new(b.len(), |k: int| *final(r@[k % nc as int]@[k / nc as int])));
        }
        r
    }

    /// A fresh copy of every row, top to bottom.
    pub fn as_rows(&self) -> (r: Vec<Vec<T>>) where T: Clone
        requires
            self.wf(),
        ensures
            cloned_nested(rows_of(self@, self.rows(), self.cols()), nested(r@)),
    {
        let rows = self.rows_iter();
        let mut r: Vec<Vec<T>> = Vec::new();
        let mut i: usize = 0;
        while i < rows.len()
            invariant
                derefs_nested(rows@) == rows_of(self@, self.rows(), self.cols()),
                i <= rows@.len(),
                r@.len() == i,
                forall|t: int| 0 <= t < i ==> cloned_seq(derefs(rows@[t]@), (#[trigger] r@[t])@),
            decreases rows@.len() - i,
        {
            r.push(clone_all(&rows[i]));
            i += 1;
        }
        proof {
            assert forall|t: int| 0 <= t < r@.len() implies cloned_seq(rows_of(self@, self.rows(), self.cols())[t], #[trigger] nested(r@)[t]) by {
                assert(derefs_nested(rows@)[t] == derefs(rows@[t]@));
            }
        }
        r
    }

    /// A fresh copy of every column, left to right.
    pub fn as_columns(&self) -> (r: Vec<Vec<T>>) where T: Clone
        requires
            self.wf(),
        ensures
            cloned_nested(columns_of(self@, self.rows(), self.cols()), nested(r@)),
    {
        let columns = self.columns_iter();
        let mut r: Vec<Vec<T>> = Vec::new();
        let mut j: usize = 0;
        while j < columns.len()
            invariant
                derefs_nested(columns@) == columns_of(self@, self.rows(), self.cols()),
                j <= columns@.len(),
                r@.len() == j,
                forall|t: int| 0 <= t < j ==> cloned_seq(derefs(columns@[t]@), (#[trigger] r@[t])@),
            decreases columns@.len() - j,
        {
            r.push(clone_all(&columns[j]));
            j += 1;
        }
        proof {
            assert forall|t: int| 0 <= t < r@.len() implies cloned_seq(columns_of(self@, self.rows(), self.cols())[t], #[trigger] nested(r@)[t]) by {
                assert(derefs_nested(columns@)[t] == derefs(columns@[t]@));
            }
        }
        r
    }

    /// A fresh copy of the cells in row-major order.
    pub fn as_row_major(&self) -> (r: Vec<T>) where T: Clone
        requires
            self.wf(),
        ensures
            cloned_seq(self@, r@),
    {
        clone_all(&self.elements_row_major_iter())
    }

    /// A fresh copy of the cells in column-major order.
    pub fn as_column_major(&self) -> (r: Vec<T>) where T: Clone
        requires
            self.wf(),
        ensures
            cloned_seq(row_major_to_column_major(self@, self.rows(), self.cols()), r@),
    {
        clone_all(&self.elements_column_major_iter())
    }

    /// The (row, column) pairs of this grid in row-major order.
    pub fn indices_row_major(&self) -> (r: Vec<(usize, usize)>)
        requires
            self.wf(),
        ensures
            r@ == row_major_indices(self.rows(), self.cols()),
    {
        proof {
            assert(self.vecgrid.len() == self@.len());
        }
        crate::layout::indices_row_major(self.num_rows, self.num_columns)
    }

    /// The (row, column) pairs of this grid in column-major order.
    pub fn indices_column_major(&self) -> (r: Vec<(usize, usize)>)
        requires
            self.wf(),
        ensures
            r@ == column_major_indices(self.rows(), self.cols()),
    {
        proof {
            assert(self.vecgrid.len() == self@.len());
        }
        crate::layout::indices_column_major(self.num_rows, self.num_columns)
    }

    /// Each cell with its (row, column) pair, in row-major order.
    pub fn enumerate_row_major(&self) -> (r: Vec<((usize, usize), &T)>)
        requires
            self.wf(),
        ensures
            r@.len() == self@.len(),
            forall|k: int| 0 <= k < r@.len() ==> (#[trigger] r@[k]).0 == row_major_indices(self.rows(), self.cols())[k],
            forall|k: int| 0 <= k < r@.len() ==> *(#[trigger] r@[k]).1 == self@[k],
    {
        let indices = self.indices_row_major();
        let refs = self.elements_row_major_iter();
        proof {
            assert(derefs(refs@).len() == refs@.len());
            assert forall|k: int| 0 <= k < refs@.len() implies *refs@[k] == self@[k] by {
                assert(derefs(refs@)[k] == *refs@[k]);
            }
        }
        zip_refs(indices, refs)
    }

    /// Each cell with its (row, column) pair, in column-major order.
    pub fn enumerate_column_major(&self) -> (r: Vec<((usize, usize), &T)>)
        requires
            self.wf(),
        ensures
            r@.len() == self@.len(),
            forall|k: int| 0 <= k < r@.len() ==> (#[trigger] r@[k]).0 == column_major_indices(self.rows(), self.cols())[k],
            forall|k: int| 0 <= k < r@.len() ==> *(#[trigger] r@[k]).1 == row_major_to_column_major(self@, self.rows(), self.cols())[k],
    {
        let indices = self.indices_column_major();
        let refs = self.elements_column_major_iter();
        proof {
            assert(derefs(refs@).len() == refs@.len());
            assert forall|k: int| 0 <= k < refs@.len() implies *refs@[k] == row_major_to_column_major(self@, self.rows(), self.cols())[k] by {
                assert(derefs(refs@)[k] == *refs@[k]);
            }
        }
        zip_refs(indices, refs)
    }

    /// Inserts `row` before row `at`. The row must have `num_columns` elements
    /// (else `DimensionMismatch`), and `at` must name an existing row (else
    /// `IndexOutOfBounds(at)`); on an error nothing changes.
    pub fn insert_row(&mut self, row: Vec<T>, at: usize) -> (r: Result<(), Error>)
        requires
            old(self).wf(),
            old(self).rows() + 1 <= usize::MAX,
            (old(self).rows() + 1) * old(self).cols() <= usize::MAX,
        ensures
            final(self).wf(),
            r is Ok <==> row@.len() == old(self).cols() && at < old(self).rows(),
            row@.len() != old(self).cols() ==> r == Err::<(), Error>(Error::DimensionMismatch),
            row@.len() == old(self).cols() && at >= old(self).rows() ==> r == Err::<(), Error>(
                Error::IndexOutOfBounds(at),
            ),
            r is Err ==> *final(self) == *old(self),
            r is Ok ==> {
                &&& final(self).rows() == old(self).rows() + 1
                &&& final(self).cols() == old(self).cols()
                &&& final(self)@ == old(self)@.subrange(0, at * old(self).cols()) + row@ + old(
                    self,
                )@.subrange(at * old(self).cols(), old(self)@.len() as int)
            },
    {
        let c = self.num_columns;
        if row.len() != c {
            return Err(Error::DimensionMismatch);
        }
        if at >= self.num_rows {
            return Err(Error::IndexOutOfBounds(at));
        }
        proof {
            assert(self.vecgrid.len() == self@.len());
            lemma_row_start(at as int, self.num_rows as int, c as int);
        }
        let start = at * c;
        let mut row = row;
        let mut tail = self.vecgrid.split_off(start);
        self.vecgrid.append(&mut row);
        self.vecgrid.append(&mut tail);
        let r0 = self.num_rows;
        proof {
            assert((r0 + 1) * c == r0 * c + c) by (nonlinear_arith);
        }
        self.num_rows = r0 + 1;
        Ok(())
    }

    /// Inserts `rows` before row `at`, keeping their order. Every row must have
    /// `num_columns` elements (else `DimensionMismatch`), and `at` may be at most
    /// `num_rows` (else `IndexOutOfBounds(at)`); on an error nothing changes.
    pub fn insert_rows(&mut self, rows: Vec<Vec<T>>, at: usize) -> (r: Result<(), Error>)
        requires
            old(self).wf(),
            old(self).rows() + rows@.len() <= usize::MAX,
            (old(self).rows() + rows@.len()) * old(self).cols() <= usize::MAX,
        ensures
            final(self).wf(),
            r is Ok <==> all_len(nested(rows@), old(self).cols()) && at <= old(self).rows(),
            !all_len(nested(rows@), old(self).cols()) ==> r == Err::<(), Error>(Error::DimensionMismatch),
            all_len(nested(rows@), old(self).cols()) && at > old(self).rows() ==> r == Err::<(), Error>(
                Error::IndexOutOfBounds(at),
            ),
            r is Err ==> *final(self) == *old(self),
            r is Ok ==> {
                &&& final(self).rows() == old(self).rows() + rows@.len()
                &&& final(self).cols() == old(self).cols()
                &&& final(self)@ == old(self)@.subrange(0, at * old(self).cols()) + flatten_rows(
                    nested(rows@),
                    old(self).cols(),
                ) + old(self)@.subrange(at * old(self).cols(), old(self)@.len() as int)
            },
    {
        let c = self.num_columns;
        let n = rows.len();
        let ghost rs = nested(rows@);
        let mut i: usize = 0;
        while i < n
            invariant
                i <= n,
                n == rs.len(),
                rs == nested(rows@),
                c == self.cols(),
                *self == *old(self),
                old(self).wf(),
                forall|t: int| 0 <= t < i ==> (#[trigger] rs[t]).len() == c,
            decreases n - i,
        {
            if rows[i].len() != c {
                assert(rs[i as int].len() != c);
                return Err(Error::DimensionMismatch);
            }
            i += 1;
        }
        if at > self.num_rows {
            return Err(Error::IndexOutOfBounds(at));
        }
        proof {
            assert(self.vecgrid.len() == self@.len());
            lemma_row_start(at as int, self.num_rows as int, c as int);
        }
        let ghost before = self.vecgrid@;
        let start = at * c;
        let mut tail = self.vecgrid.split_off(start);
        for row in it: rows.into_iter()
            invariant
                it.seq() == rows@,
                rs == nested(rows@),
                all_len(rs, c as nat),
                n == rs.len(),
                n == rows@.len(),
                start <= before.len(),
                self.num_rows == old(self).num_rows,
                self.num_columns == c,
                self.vecgrid@ == before.subrange(0, start as int) + flatten_rows(rs.take(it.index() as int), c as nat),
        {
            proof {
                lemma_flatten_take(rs, it.index() as int, c as nat);
                assert(rs[it.index() as int] == row@);
            }
            let mut row = row;
            self.vecgrid.append(&mut row);
        }
        assert(rs.take(n as int) =~= rs);
        self.vecgrid.append(&mut tail);
        let r0 = self.num_rows;
        proof {
            assert((r0 + n) * c == r0 * c + n * c) by (nonlinear_arith);
        }
        self.num_rows = r0 + n;
        Ok(())
    }

    /// Appends `rows` after the last row: `insert_rows` at `num_rows`.
    pub fn append_rows(&mut self, rows: Vec<Vec<T>>) -> (r: Result<(), Error>)
        requires
            old(self).wf(),
            old(self).rows() + rows@.len() <= usize::MAX,
            (old(self).rows() + rows@.len()) * old(self).cols() <= usize::MAX,
        ensures
            final(self).wf(),
            r is Ok <==> all_len(nested(rows@), old(self).cols()),
            r is Err ==> r == Err::<(), Error>(Error::DimensionMismatch) && *final(self) == *old(self),
            r is Ok ==> {
                &&& final(self).rows() == old(self).rows() + rows@.len()
                &&& final(self).cols() == old(self).cols()
                &&& final(self)@ == old(self)@ + flatten_rows(nested(rows@), old(self).cols())
            },
    {
        let at = self.num_rows;
        let r = self.insert_rows(rows, at);
        proof {
            lemma_row_start(at as int, at as int, old(self).cols() as int);
            assert(old(self)@.subrange(0, at * old(self).cols()) =~= old(self)@);
        }
        r
    }

    /// Removes row `at`: `remove_rows(at, 1)`.
    pub fn remove_row(&mut self, at: usize) -> (r: Result<(), Error>)
        requires
            old(self).wf(),
        ensures
            final(self).wf(),
            r is Ok <==> at < old(self).rows(),
            r is Err ==> *final(self) == *old(self) && r == Err::<(), Error>(
                Error::IndicesOutOfBounds(at, if at + 1 > usize::MAX { usize::MAX } else { (at + 1) as usize }),
            ),
            r is Ok ==> {
                &&& final(self).rows() == old(self).rows() - 1
                &&& final(self).cols() == old(self).cols()
                &&& final(self)@ == old(self)@.subrange(0, at * old(self).cols()) + old(self)@.subrange(
                    (at + 1) * old(self).cols(),
                    old(self)@.len() as int,
                )
            },
    {
        self.remove_rows(at, 1)
    }

    /// Removes the `n` rows that start at row `at`. Fails with
    /// `IndicesOutOfBounds(at, at + n)` (the sum saturating at `usize::MAX`)
    /// when they do not all exist; then nothing changes.
    pub fn remove_rows(&mut self, at: usize, n: usize) -> (r: Result<(), Error>)
        requires
            old(self).wf(),
        ensures
            final(self).wf(),
            r is Ok <==> at + n <= old(self).rows(),
            r is Err ==> *final(self) == *old(self) && r == Err::<(), Error>(
                Error::IndicesOutOfBounds(at, if at + n > usize::MAX { usize::MAX } else { (at + n) as usize }),
            ),
            r is Ok ==> {
                &&& final(self).rows() == old(self).rows() - n
                &&& final(self).cols() == old(self).cols()
                &&& final(self)@ == old(self)@.subrange(0, at * old(self).cols()) + old(self)@.subrange(
                    (at + n) * old(self).cols(),
                    old(self)@.len() as int,
                )
            },
    {
        if n > self.num_rows || at > self.num_rows - n {
            return Err(Error::IndicesOutOfBounds(at, at.saturating_add(n)));
        }
        let c = self.num_columns;
        proof {
            assert(self.vecgrid.len() == self@.len());
            lemma_row_start(at as int, self.num_rows as int, c as int);
            lemma_row_start((at + n) as int, self.num_rows as int, c as int);
            assert((at + n) * c == at * c + n * c) by (nonlinear_arith);
        }
        let start = at * c;
        let mut tail = self.vecgrid.split_off(start);
        let mut rest = tail.split_off(n * c);
        self.vecgrid.append(&mut rest);
        let r0 = self.num_rows;
        proof {
            assert(((r0 - n) as int) * c + n * c == r0 * c) by (nonlinear_arith)
                requires
                    n <= r0,
            ;
        }
        self.num_rows = r0 - n;
        Ok(())
    }

    /// Inserts `column` before column `at`. The column must have `num_rows`
    /// elements (else `DimensionMismatch`), and `at` must name an existing
    /// column (else `IndexOutOfBounds(at)`); on an error nothing changes.
    /// Columns are not contiguous in the buffer, so this rewrites all of it.
    pub fn insert_column(&mut self, column: Vec<T>, at: usize) -> (r: Result<(), Error>)
        requires
            old(self).wf(),
            old(self).cols() + 1 <= usize::MAX,
            old(self).rows() * (old(self).cols() + 1) <= usize::MAX,
        ensures
            final(self).wf(),
            r is Ok <==> column@.len() == old(self).rows() && at < old(self).cols(),
            column@.len() != old(self).rows() ==> r == Err::<(), Error>(Error::DimensionMismatch),
            column@.len() == old(self).rows() && at >= old(self).cols() ==> r == Err::<(), Error>(
                Error::IndexOutOfBounds(at),
            ),
            r is Err ==> *final(self) == *old(self),
            r is Ok ==> final(self).rows() == old(self).rows() && final(self).cols() == old(self).cols() + 1,
            r is Ok ==> forall|i: int, j: int|
                0 <= i < old(self).rows() && 0 <= j <= old(self).cols() ==> #[trigger] final(self)@[i * (
                old(self).cols() + 1) + j] == if j < at {
                    old(self)@[i * old(self).cols() + j]
                } else if j == at {
                    column@[i]
                } else {
                    old(self)@[i * old(self).cols() + j - 1]
                },
    {
        let (nr, nc) = (self.num_rows, self.num_columns);
        if column.len() != nr {
            return Err(Error::DimensionMismatch);
        }
        if at >= nc {
            return Err(Error::IndexOutOfBounds(at));
        }
        let ghost b = self@;
        let mut buffer: Vec<T> = Vec::new();
        core::mem::swap(&mut buffer, &mut self.vecgrid);
        assert(nr * nc == nc * nr) by (nonlinear_arith);
        let mut column_major = transpose_by_move(buffer, nc, nr);
        assert(column_major@ =~= row_major_to_column_major(b, nr as nat, nc as nat));
        proof {
            lemma_row_start(at as int, nc as int, nr as int);
            assert(column_major.len() == column_major@.len());
        }
        let ghost new_column = column@;
        let mut tail = column_major.split_off(at * nr);
        let mut column = column;
        column_major.append(&mut column);
        column_major.append(&mut tail);
        let ghost spliced = column_major@;
        assert(nr * (nc + 1) == nr * nc + nr) by (nonlinear_arith);
        self.vecgrid = transpose_by_move(column_major, nr, nc + 1);
        self.num_columns = nc + 1;
        assert forall|i: int, j: int| 0 <= i < nr && 0 <= j <= nc implies #[trigger] self@[i * (nc + 1) + j] == if j < at {
            b[i * nc + j]
        } else if j == at {
            new_column[i]
        } else {
            b[i * nc + j - 1]
        } by {
            lemma_offset(i, j, nr as int, nc as int + 1);
            lemma_offset(j, i, nc as int + 1, nr as int);
            assert(self@[i * (nc + 1) + j] == spliced[j * nr + i]);
            if j < at {
                lemma_offset(j, i, nc as int, nr as int);
                lemma_offset(i, j, nr as int, nc as int);
                lemma_row_start(j + 1, at as int, nr as int);
                assert((j + 1) * nr == j * nr + nr) by (nonlinear_arith);
            } else if j > at {
                lemma_offset(j - 1, i, nc as int, nr as int);
                lemma_offset(i, j - 1, nr as int, nc as int);
                lemma_row_start(at as int + 1, j, nr as int);
                assert((at + 1) * nr == at * nr + nr) by (nonlinear_arith);
                assert((j - 1) * nr == j * nr - nr) by (nonlinear_arith);
            } else {
                assert(j * nr == at * nr);
            }
        }
        Ok(())
    }

    /// Takes the grid apart, handing back its buffer in row-major order.
    pub fn into_row_major(self) -> (r: Vec<T>)
        ensures
            r@ == self@,
    {
        self.vecgrid
    }
}

impl<T> core::ops::Index<(usize, usize)> for Vecgrid<T> {
    type Output = T;

    /// The cell at (row, column). The pair must lie inside the grid; an
    /// unverified caller that passes one outside it is stopped by the
    /// buffer's own bounds check.
    fn index(&self, index: (usize, usize)) -> (r: &T)
        ensures
            *r == self@[index.0 * self.cols() + index.1],
    {
        let (row, column) = index;
        let offset = match self.get_index(row, column) {
            Some(i) => i,
            None => self.vecgrid.len(),
        };
        &self.vecgrid[offset]
    }
}

impl<T> vstd::std_specs::core::IndexSpecImpl<(usize, usize)> for Vecgrid<T> {
    open spec fn index_req(&self, index: &(usize, usize)) -> bool {
        &&& self.wf()
        &&& index.0 < self.rows()
        &&& index.1 < self.cols()
    }
}

/// The first `n` items of `iterator`, or `None` if it ends sooner; pulls at
/// most `n` items.
fn take_exactly<T, I: Iterator<Item = T>>(iterator: I, n: usize) -> (r: Option<Vec<T>>)
    ensures
        r matches Some(v) ==> v@.len() == n,
        iterator.obeys_prophetic_iter_laws() ==> (r is Some <==> iterator.remaining().len() >= n),
        iterator.obeys_prophetic_iter_laws() ==> (r matches Some(v) ==> v@ == iterator.remaining().take(n as int)),
{
    let mut it = iterator;
    let mut out: Vec<T> = Vec::new();
    while out.len() < n
        invariant
            out@.len() <= n,
            it.obeys_prophetic_iter_laws() == iterator.obeys_prophetic_iter_laws(),
            iterator.obeys_prophetic_iter_laws() ==> iterator.remaining() == out@ + it.remaining(),
        decreases n - out@.len(),
    {
        match it.next() {
            Some(x) => {
                out.push(x);
                proof {
                    if iterator.obeys_prophetic_iter_laws() {
                        assert(iterator.remaining() =~= out@ + it.remaining());
                    }
                }
            },
            None => {
                return None;
            },
        }
    }
    proof {
        if iterator.obeys_prophetic_iter_laws() {
            assert(iterator.remaining().take(n as int) =~= out@);
        }
    }
    Some(out)
}

/// Reorders a column-major buffer into row-major order, moving each element
/// exactly once.
fn transpose_by_move<T>(elements: Vec<T>, num_rows: usize, num_columns: usize) -> (r: Vec<T>)
    requires
        elements@.len() == num_rows * num_columns,
    ensures
        r@ == column_major_to_row_major(elements@, num_rows as nat, num_columns as nat),
{
    let n = elements.len();
    let ghost e = elements@;
    let ghost r = num_rows as int;
    let ghost c = num_columns as int;
    // slots[i] receives the element bound for row-major offset i.
    let mut slots: Vec<Option<T>> = Vec::new();
    while slots.len() < n
        invariant
            slots@.len() <= n,
            forall|i: int| 0 <= i < slots@.len() ==> (#[trigger] slots@[i]) is None,
        decreases n - slots@.len(),
    {
        slots.push(None);
    }
    let mut k: usize = 0;
    for x in it: elements.into_iter()
        invariant
            it.seq() == e,
            k == it.index(),
            n == e.len(),
            n == r * c,
            r == num_rows,
            c == num_columns,
            slots@.len() == n,
            forall|i: int|
                0 <= i < n ==> #[trigger] slots@[i] == if (i % c) * r + i / c < k {
                    Some(e[(i % c) * r + i / c])
                } else {
                    None
                },
    {
        proof {
            lemma_transpose_source(k as int, c, r);
            lemma_decode_column_major(k as int, r, c);
            assert(r * c == c * r) by (nonlinear_arith);
        }
        let target = (k % num_rows) * num_columns + k / num_rows;
        let ghost before = slots@;
        slots.set(target, Some(x));
        proof {
            assert forall|i: int| 0 <= i < n implies #[trigger] slots@[i] == if (i % c) * r + i / c < k + 1 {
                Some(e[(i % c) * r + i / c])
            } else {
                None
            } by {
                lemma_transpose_source(i, r, c);
                if i != target {
                    assert((i % c) * r + i / c != k);
                }
            }
        }
        k += 1;
    }
    let ghost filled = slots@;
    assert forall|i: int| 0 <= i < n implies #[trigger] filled[i] == Some(e[(i % c) * r + i / c]) by {
        lemma_transpose_source(i, r, c);
    }
    let mut out: Vec<T> = Vec::new();
    for slot in it: slots.into_iter()
        invariant
            it.seq() == filled,
            n == e.len(),
            n == r * c,
            r == num_rows,
            c == num_columns,
            filled.len() == n,
            forall|i: int| 0 <= i < n ==> #[trigger] filled[i] == Some(e[(i % c) * r + i / c]),
            out@.len() == it.index(),
            forall|i: int| 0 <= i < out@.len() ==> #[trigger] out@[i] == e[(i % c) * r + i / c],
    {
        match slot {
            Some(x) => out.push(x),
            None => {
                proof {
                    assert(filled[it.index() as int] is Some);
                }
                vstd::pervasive::unreached::<()>();
            },
        }
    }
    assert(out@ =~= column_major_to_row_major(e, num_rows as nat, num_columns as nat));
    out
}

/// One mutable reference per element of `v`, in order; the vector ends up
/// holding what is stored through them.
fn cell_refs<'a, T>(v: &'a mut Vec<T>) -> (out: Vec<&'a mut T>)
    ensures
        currents(out@) == old(v)@,
        final(v)@ == Seq::new(out@.len(), |k: int| *final(out@[k])),
{
    let ghost start = v@;
    let mut rest: &mut [T] = v.as_mut_slice();
    let mut out: Vec<&mut T> = Vec::new();
    while rest.len() > 0
        invariant
            out@.len() + rest@.len() == start.len(),
            rest@ == start.subrange(out@.len() as int, start.len() as int),
            forall|i: int| 0 <= i < out@.len() ==> *(#[trigger] out@[i]) == start[i],
            after_borrow(*v)@ == Seq::new(out@.len(), |k: int| *final(out@[k])) + final(rest)@,
        decreases rest@.len(),
    {
        let (head, tail) = rest.split_at_mut(1);
        let cell = head.first_mut().unwrap();
        out.push(cell);
        rest = tail;
    }
    assert(currents(out@) =~= start);
    out
}

/// Cuts `v` into `count` consecutive runs of `size` elements.
fn chunks<T>(v: Vec<T>, count: usize, size: usize) -> (r: Vec<Vec<T>>)
    requires
        v@.len() == count * size,
    ensures
        r@.len() == count,
        forall|t: int| 0 <= t < count ==> (#[trigger] r@[t])@ == v@.subrange(t * size, t * size + size),
{
    let ghost whole = v@;
    let mut remaining = v;
    let mut r: Vec<Vec<T>> = Vec::new();
    let mut t: usize = 0;
    while t < count
        invariant
            t <= count,
            whole.len() == count * size,
            r@.len() == t,
            t * size <= whole.len(),
            remaining@ == whole.subrange(t * size, whole.len() as int),
            forall|u: int| 0 <= u < t ==> (#[trigger] r@[u])@ == whole.subrange(u * size, u * size + size),
        decreases count - t,
    {
        proof {
            lemma_row_start(t as int + 1, count as int, size as int);
            assert((t + 1) * size == t * size + size) by (nonlinear_arith);
        }
        let tail = remaining.split_off(size);
        r.push(remaining);
        remaining = tail;
        t += 1;
    }
    r
}

/// A clone of each referenced value.
fn clone_all<T: Clone>(v: &Vec<&T>) -> (r: Vec<T>)
    ensures
        cloned_seq(derefs(v@), r@),
{
    let mut r: Vec<T> = Vec::new();
    let mut k: usize = 0;
    while k < v.len()
        invariant
            k <= v@.len(),
            r@.len() == k,
            forall|t: int| 0 <= t < k ==> cloned(*v@[t], #[trigger] r@[t]),
        decreases v@.len() - k,
    {
        r.push(v[k].clone());
        k += 1;
    }
    r
}

/// Pairs up two sequences of equal length.
fn zip_refs<'a, T>(indices: Vec<(usize, usize)>, refs: Vec<&'a T>) -> (r: Vec<((usize, usize), &'a T)>)
    requires
        indices@.len() == refs@.len(),
    ensures
        r@.len() == indices@.len(),
        forall|k: int| 0 <= k < r@.len() ==> (#[trigger] r@[k]).0 == indices@[k],
        forall|k: int| 0 <= k < r@.len() ==> (#[trigger] r@[k]).1 == refs@[k],
{
    let mut r: Vec<((usize, usize), &'a T)> = Vec::new();
    let mut k: usize = 0;
    while k < indices.len()
        invariant
            indices@.len() == refs@.len(),
            k <= indices@.len(),
            r@.len() == k,
            forall|t: int| 0 <= t < k ==> (#[trigger] r@[t]).0 == indices@[t],
            forall|t: int| 0 <= t < k ==> (#[trigger] r@[t]).1 == refs@[t],
        decreases indices@.len() - k,
    {
        r.push((indices[k], refs[k]));
        k += 1;
    }
    r
}

/// The results of `n` calls of `generator`, in call order.
fn generate<T, F: FnMut() -> T>(generator: F, n: usize) -> (r: Vec<T>)
    requires
        call_requires(generator, ()),
    ensures
        r@.len() == n,
        forall|k: int| 0 <= k < n ==> call_ensures(generator, (), #[trigger] r@[k]),
{
    let ghost g0 = generator;
    let mut generator = generator;
    let mut out: Vec<T> = Vec::new();
    let mut k: usize = 0;
    while k < n
        invariant
            k <= n,
            out@.len() == k,
            generator == g0,
            call_requires(g0, ()),
            forall|t: int| 0 <= t < k ==> call_ensures(g0, (), #[trigger] out@[t]),
        decreases n - k,
    {
        out.push(generator());
        k += 1;
    }
    out
}

} // verus!

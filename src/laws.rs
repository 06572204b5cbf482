//! Laws that relate the grid's operations to one another, stated over the
//! models that their contracts use.
use vstd::prelude::*;

use crate::layout::{
    all_len, column_major_offset, column_major_to_row_major, column_major_indices, column_of,
    columns_of, first_len, flatten_rows, lemma_decode, lemma_decode_column_major, lemma_offset,
    lemma_row_start, lemma_transpose_source, row_major_indices, row_major_to_column_major, row_of,
    rows_of, transpose_columns,
};

verus! {

/// Building a grid from rectangular rows (`from_rows`) and reading its rows
/// back (`as_rows`) gives the rows that went in.
pub proof fn lemma_rows_round_trip<T>(rows: Seq<Seq<T>>)
    requires
        all_len(rows, first_len(rows)),
    ensures
        rows_of(flatten_rows(rows, first_len(rows)), rows.len(), first_len(rows)) == rows,
{
    let c = first_len(rows);
    let b = flatten_rows(rows, c);
    assert forall|i: int| 0 <= i < rows.len() implies #[trigger] rows_of(b, rows.len(), c)[i] == rows[i] by {
        assert forall|j: int| 0 <= j < c implies row_of(b, c, i)[j] == rows[i][j] by {
            lemma_offset(i, j, rows.len() as int, c as int);
        }
        assert(row_of(b, c, i) =~= rows[i]);
    }
    assert(rows_of(b, rows.len(), c) =~= rows);
}

/// Reading the rows of a grid and building a grid from them
/// (`as_rows`, then `from_rows`) gives the same buffer.
pub proof fn lemma_row_major_round_trip<T>(b: Seq<T>, num_rows: nat, num_columns: nat)
    requires
        b.len() == num_rows * num_columns,
    ensures
        flatten_rows(rows_of(b, num_rows, num_columns), num_columns) == b,
{
    let f = flatten_rows(rows_of(b, num_rows, num_columns), num_columns);
    assert forall|k: int| 0 <= k < b.len() implies #[trigger] f[k] == b[k] by {
        lemma_decode(k, num_rows as int, num_columns as int);
    }
    assert(f =~= b);
}

/// Building a grid from equally long columns (`from_columns`) and reading its
/// columns back (`as_columns`) gives the columns that went in.
pub proof fn lemma_columns_round_trip<T>(columns: Seq<Seq<T>>)
    requires
        all_len(columns, first_len(columns)),
    ensures
        columns_of(transpose_columns(columns, first_len(columns)), first_len(columns), columns.len())
            == columns,
{
    let r = first_len(columns);
    let c = columns.len();
    let b = transpose_columns(columns, r);
    assert forall|j: int| 0 <= j < c implies #[trigger] columns_of(b, r, c)[j] == columns[j] by {
        assert forall|i: int| 0 <= i < r implies column_of(b, r, c, j)[i] == columns[j][i] by {
            lemma_offset(i, j, r as int, c as int);
        }
        assert(column_of(b, r, c, j) =~= columns[j]);
    }
    assert(columns_of(b, r, c) =~= columns);
}

/// Building a grid from a column-major buffer (`from_column_major`) and
/// reading it back in column-major order (`as_column_major`) gives the buffer
/// that went in.
pub proof fn lemma_column_major_round_trip<T>(e: Seq<T>, num_rows: nat, num_columns: nat)
    requires
        e.len() == num_rows * num_columns,
    ensures
        row_major_to_column_major(
            column_major_to_row_major(e, num_rows, num_columns),
            num_rows,
            num_columns,
        ) == e,
{
    let b = column_major_to_row_major(e, num_rows, num_columns);
    let back = row_major_to_column_major(b, num_rows, num_columns);
    assert forall|k: int| 0 <= k < e.len() implies #[trigger] back[k] == e[k] by {
        assert(num_rows * num_columns == num_columns * num_rows) by (nonlinear_arith);
        lemma_decode_column_major(k, num_rows as int, num_columns as int);
        lemma_transpose_source(k, num_columns as int, num_rows as int);
    }
    assert(back =~= e);
}

/// The three ways of addressing a cell agree: (`row`, `column`) with `get`,
/// `row * num_columns + column` with `get_row_major`, and
/// `column * num_rows + row` with `get_column_major` name the same element.
pub proof fn lemma_cross_addressing<T>(b: Seq<T>, num_rows: nat, num_columns: nat, row: int, column: int)
    requires
        b.len() == num_rows * num_columns,
        0 <= row < num_rows,
        0 <= column < num_columns,
    ensures
        0 <= row * num_columns + column < b.len(),
        0 <= column * num_rows + row < b.len(),
        column_major_offset(column * num_rows + row, num_rows, num_columns) == row * num_columns + column,
        row_major_to_column_major(b, num_rows, num_columns)[column * num_rows + row] == b[row
            * num_columns + column],
{
    lemma_offset(row, column, num_rows as int, num_columns as int);
    lemma_offset(column, row, num_columns as int, num_rows as int);
    assert(num_rows * num_columns == num_columns * num_rows) by (nonlinear_arith);
}

/// The index listings name the same cells as the element listings: the
/// k-th pair of `indices_row_major` is the cell at row-major position k, and
/// the k-th pair of `indices_column_major` is the cell at column-major
/// position k.
pub proof fn lemma_indices_address_cells(num_rows: nat, num_columns: nat, k: int)
    requires
        num_rows * num_columns <= usize::MAX,
        0 <= k < num_rows * num_columns,
    ensures
        row_major_indices(num_rows, num_columns)[k].0 * num_columns + row_major_indices(
            num_rows,
            num_columns,
        )[k].1 == k,
        column_major_indices(num_rows, num_columns)[k].0 * num_columns + column_major_indices(
            num_rows,
            num_columns,
        )[k].1 == column_major_offset(k, num_rows, num_columns),
{
    lemma_decode(k, num_rows as int, num_columns as int);
    lemma_decode_column_major(k, num_rows as int, num_columns as int);
}

/// Walking the row-major listing from its end visits the cells in exactly
/// mirrored order: its k-th pair from the back, for the k-th cell (row,
/// column) from the front, is (num_rows - 1 - row, num_columns - 1 - column).
/// The same holds of the column-major listing.
pub proof fn lemma_reversed_indices(num_rows: nat, num_columns: nat, row: int, column: int)
    requires
        num_rows * num_columns <= usize::MAX,
        0 <= row < num_rows,
        0 <= column < num_columns,
    ensures
        row_major_indices(num_rows, num_columns).reverse()[row * num_columns + column] == (
            (num_rows - 1 - row) as usize,
            (num_columns - 1 - column) as usize,
        ),
        column_major_indices(num_rows, num_columns).reverse()[column * num_rows + row] == (
            (num_rows - 1 - row) as usize,
            (num_columns - 1 - column) as usize,
        ),
{
    let (r, c) = (num_rows as int, num_columns as int);
    let n = r * c;
    lemma_offset(row, column, r, c);
    lemma_offset(column, row, c, r);
    lemma_offset(r - 1 - row, c - 1 - column, r, c);
    lemma_offset(c - 1 - column, r - 1 - row, c, r);
    assert(n - 1 - (row * c + column) == (r - 1 - row) * c + (c - 1 - column)) by (nonlinear_arith)
        requires
            n == r * c,
    ;
    assert(r * c == c * r) by (nonlinear_arith);
    assert(n - 1 - (column * r + row) == (c - 1 - column) * r + (r - 1 - row)) by (nonlinear_arith)
        requires
            n == c * r,
    ;
}

/// Inserting a row of the right width before row `at` (`insert_row`) and then
/// removing row `at` (`remove_row`) restores the buffer.
pub proof fn lemma_insert_remove_row<T>(b: Seq<T>, num_rows: nat, num_columns: nat, row: Seq<T>, at: nat)
    requires
        b.len() == num_rows * num_columns,
        row.len() == num_columns,
        at < num_rows,
    ensures
        ({
            let start = at * num_columns;
            let inserted = b.subrange(0, start as int) + row + b.subrange(start as int, b.len() as int);
            inserted.subrange(0, start as int) + inserted.subrange(
                ((at + 1) * num_columns) as int,
                inserted.len() as int,
            ) == b
        }),
{
    let c = num_columns as int;
    let start = at * num_columns;
    lemma_row_start(at as int, num_rows as int, c);
    assert((at + 1) * c == at * c + c) by (nonlinear_arith);
    let inserted = b.subrange(0, start as int) + row + b.subrange(start as int, b.len() as int);
    assert(inserted.subrange(0, start as int) + inserted.subrange(((at + 1) * num_columns) as int, inserted.len() as int) =~= b);
}

/// A grid with no rows has no cells: every listing of its cells is empty,
/// and each of its columns is empty.
pub proof fn lemma_no_rows<T>(b: Seq<T>, num_columns: nat)
    requires
        b.len() == 0 * num_columns,
    ensures
        b.len() == 0,
        rows_of(b, 0, num_columns).len() == 0,
        row_major_to_column_major(b, 0, num_columns).len() == 0,
        row_major_indices(0, num_columns).len() == 0,
        column_major_indices(0, num_columns).len() == 0,
        columns_of(b, 0, num_columns).len() == num_columns,
        forall|j: int| 0 <= j < num_columns ==> (#[trigger] columns_of(b, 0, num_columns)[j]).len() == 0,
{
    assert(0 * num_columns == 0);
}

} // verus!

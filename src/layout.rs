//! How cells of a rectangular grid map onto one flat row-major buffer, and
//! the sequences that the grid's views produce.
use vstd::arithmetic::div_mod::{lemma_fundamental_div_mod, lemma_fundamental_div_mod_converse};
use vstd::prelude::*;

verus! {

/// Offset in a row-major buffer of the cell at column-major position `k`.
pub open spec fn column_major_offset(k: int, num_rows: nat, num_columns: nat) -> int {
    (k % num_rows as int) * num_columns + k / num_rows as int
}

/// Every sequence in `s` has length `n`.
pub open spec fn all_len<T>(s: Seq<Seq<T>>, n: nat) -> bool {
    forall|i: int| 0 <= i < s.len() ==> (#[trigger] s[i]).len() == n
}

/// Length of the first sequence in `s`, or zero when `s` is empty.
pub open spec fn first_len<T>(s: Seq<Seq<T>>) -> nat {
    if s.len() == 0 {
        0
    } else {
        s[0].len()
    }
}

/// The contents of a sequence of vectors.
pub open spec fn nested<T>(v: Seq<Vec<T>>) -> Seq<Seq<T>> {
    v.map_values(|x: Vec<T>| x@)
}

/// The values behind a sequence of references.
pub open spec fn derefs<T>(s: Seq<&T>) -> Seq<T> {
    s.map_values(|x: &T| *x)
}

/// The values that a sequence of mutable references hold now.
pub open spec fn currents<T>(s: Seq<&mut T>) -> Seq<T> {
    s.map_values(|x: &mut T| *x)
}

/// `b` is an element-by-element clone of `a`.
pub open spec fn cloned_seq<T: Clone>(a: Seq<T>, b: Seq<T>) -> bool {
    &&& a.len() == b.len()
    &&& forall|i: int| 0 <= i < a.len() ==> cloned(a[i], #[trigger] b[i])
}

/// The values behind each vector of references.
pub open spec fn derefs_nested<T>(s: Seq<Vec<&T>>) -> Seq<Seq<T>> {
    s.map_values(|v: Vec<&T>| derefs(v@))
}

/// `b` is a sequence-by-sequence clone of `a`.
pub open spec fn cloned_nested<T: Clone>(a: Seq<Seq<T>>, b: Seq<Seq<T>>) -> bool {
    &&& a.len() == b.len()
    &&& forall|i: int| 0 <= i < a.len() ==> cloned_seq(a[i], #[trigger] b[i])
}

/// Rows of `num_columns` elements each, laid end to end (row-major order).
pub open spec fn flatten_rows<T>(rows: Seq<Seq<T>>, num_columns: nat) -> Seq<T> {
    Seq::new(rows.len() * num_columns, |k: int| rows[k / num_columns as int][k % num_columns as int])
}

/// Columns of `num_rows` elements each, stored in row-major order.
pub open spec fn transpose_columns<T>(columns: Seq<Seq<T>>, num_rows: nat) -> Seq<T> {
    Seq::new(
        num_rows * columns.len(),
        |k: int| columns[k % columns.len() as int][k / columns.len() as int],
    )
}

/// A column-major buffer of `num_rows` by `num_columns` cells, reordered into row-major order.
pub open spec fn column_major_to_row_major<T>(e: Seq<T>, num_rows: nat, num_columns: nat) -> Seq<T> {
    Seq::new(
        num_rows * num_columns,
        |k: int| e[(k % num_columns as int) * num_rows + k / num_columns as int],
    )
}

/// A row-major buffer of `num_rows` by `num_columns` cells, read in column-major order.
pub open spec fn row_major_to_column_major<T>(b: Seq<T>, num_rows: nat, num_columns: nat) -> Seq<T> {
    Seq::new(
        num_rows * num_columns,
        |k: int| b[column_major_offset(k, num_rows, num_columns)],
    )
}

/// Row `i` of a row-major buffer.
pub open spec fn row_of<T>(b: Seq<T>, num_columns: nat, i: int) -> Seq<T> {
    Seq::new(num_columns, |j: int| b[i * num_columns + j])
}

/// Column `j` of a row-major buffer.
pub open spec fn column_of<T>(b: Seq<T>, num_rows: nat, num_columns: nat, j: int) -> Seq<T> {
    Seq::new(num_rows, |i: int| b[i * num_columns + j])
}

/// All rows of a row-major buffer.
pub open spec fn rows_of<T>(b: Seq<T>, num_rows: nat, num_columns: nat) -> Seq<Seq<T>> {
    Seq::new(num_rows, |i: int| row_of(b, num_columns, i))
}

/// All columns of a row-major buffer.
pub open spec fn columns_of<T>(b: Seq<T>, num_rows: nat, num_columns: nat) -> Seq<Seq<T>> {
    Seq::new(num_columns, |j: int| column_of(b, num_rows, num_columns, j))
}

/// The (row, column) pairs of a grid in row-major visiting order.
pub open spec fn row_major_indices(num_rows: nat, num_columns: nat) -> Seq<(usize, usize)> {
    Seq::new(
        num_rows * num_columns,
        |k: int| ((k / num_columns as int) as usize, (k % num_columns as int) as usize),
    )
}

/// The (row, column) pairs of a grid in column-major visiting order.
pub open spec fn column_major_indices(num_rows: nat, num_columns: nat) -> Seq<(usize, usize)> {
    Seq::new(
        num_rows * num_columns,
        |k: int| ((k % num_rows as int) as usize, (k / num_rows as int) as usize),
    )
}

/// A cell inside the grid has its offset inside the buffer, and the offset
/// decodes back to the cell.
pub proof fn lemma_offset(i: int, j: int, num_rows: int, num_columns: int)
    requires
        0 <= i < num_rows,
        0 <= j < num_columns,
    ensures
        0 <= i * num_columns + j < num_rows * num_columns,
        i * num_columns + num_columns <= num_rows * num_columns,
        (i * num_columns + j) / num_columns == i,
        (i * num_columns + j) % num_columns == j,
{
    assert((i + 1) * num_columns == i * num_columns + num_columns) by (nonlinear_arith);
    assert((i + 1) * num_columns <= num_rows * num_columns) by (nonlinear_arith)
        requires
            i + 1 <= num_rows,
            0 <= num_columns,
    ;
    assert(0 <= i * num_columns) by (nonlinear_arith)
        requires
            0 <= i,
            0 <= num_columns,
    ;
    lemma_fundamental_div_mod_converse(i * num_columns + j, num_columns, i, j);
}

/// An offset inside the buffer decodes to a cell inside the grid.
pub proof fn lemma_decode(k: int, num_rows: int, num_columns: int)
    requires
        0 <= num_rows,
        0 <= num_columns,
        0 <= k < num_rows * num_columns,
    ensures
        0 < num_rows,
        0 < num_columns,
        0 <= k / num_columns < num_rows,
        0 <= k % num_columns < num_columns,
        k == (k / num_columns) * num_columns + k % num_columns,
{
    assert(0 < num_rows && 0 < num_columns) by (nonlinear_arith)
        requires
            0 <= num_rows,
            0 <= num_columns,
            0 <= k < num_rows * num_columns,
    ;
    lemma_fundamental_div_mod(k, num_columns);
    let q = k / num_columns;
    let r = k % num_columns;
    assert(0 <= r < num_columns);
    assert(0 <= q < num_rows) by (nonlinear_arith)
        requires
            k == num_columns * q + r,
            0 <= r < num_columns,
            0 <= k < num_rows * num_columns,
            0 < num_columns,
    ;
    assert(q * num_columns == num_columns * q) by (nonlinear_arith);
}

/// The same as [`lemma_decode`], for a column-major index.
pub proof fn lemma_decode_column_major(k: int, num_rows: int, num_columns: int)
    requires
        0 <= num_rows,
        0 <= num_columns,
        0 <= k < num_rows * num_columns,
    ensures
        0 < num_rows,
        0 < num_columns,
        0 <= k % num_rows < num_rows,
        0 <= k / num_rows < num_columns,
        k == (k / num_rows) * num_rows + k % num_rows,
        0 <= (k % num_rows) * num_columns + k / num_rows < num_rows * num_columns,
{
    assert(num_rows * num_columns == num_columns * num_rows) by (nonlinear_arith);
    lemma_decode(k, num_columns, num_rows);
    lemma_offset(k % num_rows, k / num_rows, num_rows, num_columns);
}

/// A column-major index names a column inside the grid exactly when it lies
/// inside the buffer.
pub proof fn lemma_column_major_bounds(k: int, num_rows: int, num_columns: int)
    requires
        0 < num_rows,
        0 <= num_columns,
        0 <= k,
    ensures
        k / num_rows < num_columns <==> k < num_rows * num_columns,
        0 <= k % num_rows < num_rows,
        0 <= k / num_rows,
{
    lemma_fundamental_div_mod(k, num_rows);
    let q = k / num_rows;
    let r = k % num_rows;
    assert(0 <= r < num_rows);
    assert(0 <= q) by (nonlinear_arith)
        requires
            k == num_rows * q + r,
            0 <= r < num_rows,
            0 <= k,
    ;
    if q < num_columns {
        lemma_offset(q, r, num_columns, num_rows);
        assert(num_rows * q == q * num_rows) by (nonlinear_arith);
        assert(num_rows * num_columns == num_columns * num_rows) by (nonlinear_arith);
    } else {
        assert(k >= num_rows * num_columns) by (nonlinear_arith)
            requires
                k == num_rows * q + r,
                0 <= r,
                q >= num_columns,
                0 < num_rows,
        ;
    }
}

/// Row-major offset `i` holds the element at column-major position
/// `(i % num_columns) * num_rows + i / num_columns`, and that position maps
/// back to `i`.
pub proof fn lemma_transpose_source(i: int, num_rows: int, num_columns: int)
    requires
        0 <= num_rows,
        0 <= num_columns,
        0 <= i < num_rows * num_columns,
    ensures
        0 <= (i % num_columns) * num_rows + i / num_columns < num_rows * num_columns,
        ((i % num_columns) * num_rows + i / num_columns) % num_rows * num_columns + ((i % num_columns)
            * num_rows + i / num_columns) / num_rows == i,
{
    lemma_decode(i, num_rows, num_columns);
    lemma_offset(i % num_columns, i / num_columns, num_columns, num_rows);
    assert(num_rows * num_columns == num_columns * num_rows) by (nonlinear_arith);
}

/// Rows before row `i` end no later than the buffer does.
pub proof fn lemma_row_start(i: int, num_rows: int, num_columns: int)
    requires
        0 <= i <= num_rows,
        0 <= num_columns,
    ensures
        0 <= i * num_columns <= num_rows * num_columns,
{
    assert(0 <= i * num_columns <= num_rows * num_columns) by (nonlinear_arith)
        requires
            0 <= i <= num_rows,
            0 <= num_columns,
    ;
}

/// Flattening one more row appends that row.
pub proof fn lemma_flatten_take<T>(s: Seq<Seq<T>>, i: int, num_columns: nat)
    requires
        all_len(s, num_columns),
        0 <= i < s.len(),
    ensures
        flatten_rows(s.take(i + 1), num_columns) == flatten_rows(s.take(i), num_columns) + s[i],
{
    let c = num_columns as int;
    let a = flatten_rows(s.take(i + 1), num_columns);
    let b = flatten_rows(s.take(i), num_columns) + s[i];
    assert((i + 1) * c == i * c + c) by (nonlinear_arith);
    assert(a.len() == b.len());
    assert forall|k: int| 0 <= k < a.len() implies a[k] == b[k] by {
        if k < i * c {
            lemma_decode(k, i, c);
        } else {
            lemma_offset(i, k - i * c, i + 1, c);
        }
    }
    assert(a =~= b);
}

/// The (row, column) pairs of a `num_rows` by `num_columns` grid, in row-major order.
pub fn indices_row_major(num_rows: usize, num_columns: usize) -> (r: Vec<(usize, usize)>)
    requires
        num_rows * num_columns <= usize::MAX,
    ensures
        r@ == row_major_indices(num_rows as nat, num_columns as nat),
{
    let mut r: Vec<(usize, usize)> = Vec::new();
    let mut row: usize = 0;
    while row < num_rows
        invariant
            row <= num_rows,
            num_rows * num_columns <= usize::MAX,
            r@ == row_major_indices(row as nat, num_columns as nat),
        decreases num_rows - row,
    {
        let mut column: usize = 0;
        proof {
            lemma_row_start(row as int, num_rows as int, num_columns as int);
        }
        while column < num_columns
            invariant
                row < num_rows,
                column <= num_columns,
                num_rows * num_columns <= usize::MAX,
                r@.len() == row * num_columns + column,
                forall|k: int|
                    0 <= k < r@.len() ==> #[trigger] r@[k] == (
                        (k / num_columns as int) as usize,
                        (k % num_columns as int) as usize,
                    ),
            decreases num_columns - column,
        {
            proof {
                lemma_offset(row as int, column as int, num_rows as int, num_columns as int);
            }
            r.push((row, column));
            column += 1;
        }
        proof {
            assert((row + 1) * num_columns == row * num_columns + num_columns) by (nonlinear_arith);
        }
        row += 1;
        assert(r@ =~= row_major_indices(row as nat, num_columns as nat));
    }
    r
}

/// The (row, column) pairs of a `num_rows` by `num_columns` grid, in column-major order.
pub fn indices_column_major(num_rows: usize, num_columns: usize) -> (r: Vec<(usize, usize)>)
    requires
        num_rows * num_columns <= usize::MAX,
    ensures
        r@ == column_major_indices(num_rows as nat, num_columns as nat),
{
    let mut r: Vec<(usize, usize)> = Vec::new();
    let mut column: usize = 0;
    assert(num_rows * num_columns == num_columns * num_rows) by (nonlinear_arith);
    while column < num_columns
        invariant
            column <= num_columns,
            num_columns * num_rows <= usize::MAX,
            num_rows * num_columns == num_columns * num_rows,
            r@ == column_major_indices(num_rows as nat, column as nat),
        decreases num_columns - column,
    {
        let mut row: usize = 0;
        proof {
            lemma_row_start(column as int, num_columns as int, num_rows as int);
        }
        while row < num_rows
            invariant
                column < num_columns,
                row <= num_rows,
                num_columns * num_rows <= usize::MAX,
                r@.len() == column * num_rows + row,
                forall|k: int|
                    0 <= k < r@.len() ==> #[trigger] r@[k] == (
                        (k % num_rows as int) as usize,
                        (k / num_rows as int) as usize,
                    ),
            decreases num_rows - row,
        {
            proof {
                lemma_offset(column as int, row as int, num_columns as int, num_rows as int);
            }
            r.push((row, column));
            row += 1;
        }
        proof {
            assert((column + 1) * num_rows == column * num_rows + num_rows) by (nonlinear_arith);
            assert(num_rows * (column + 1) == (column + 1) * num_rows) by (nonlinear_arith);
        }
        column += 1;
        assert(r@ =~= column_major_indices(num_rows as nat, column as nat));
    }
    assert(r@ =~= column_major_indices(num_rows as nat, num_columns as nat));
    r
}

} // verus!

use vstd::prelude::*;

use vstd::arithmetic::div_mod::{lemma_div_pos_is_pos, lemma_fundamental_div_mod, lemma_mod_pos_bound};

use vstd::string::StringExecFns;

use super::MathError;
use super::text::{joined, push_joined};
use super::vector::{Vector, fits, dot_sum, dot_fits, sum_of_products, plus, minus, times};

verus! {

/// A dense `rows x cols` matrix stored row-major: entry `(r, c)` is
/// `data[r * cols + c]`.
#[derive(Clone, Debug, PartialEq)]
pub struct Matrix<T> {
    pub rows: usize,
    pub cols: usize,
    pub data: Vec<T>,
}

/// `r * cols + c` addresses a cell of a `rows x cols` row-major buffer.
pub proof fn lemma_cell_index(r: int, c: int, rows: int, cols: int)
    requires
        0 <= r < rows,
        0 <= c < cols,
    ensures
        0 <= r * cols + c < rows * cols,
        r * cols + cols <= rows * cols,
{
    assert(0 <= r * cols + c < rows * cols) by (nonlinear_arith)
        requires
            0 <= r < rows,
            0 <= c < cols,
    ;
    assert(r * cols + cols <= rows * cols) by (nonlinear_arith)
        requires
            0 <= r < rows,
            0 <= c < cols,
    ;
}

/// The first `rows` rows of width `cols` read from a row-major buffer.
pub open spec fn grid<T>(data: Seq<T>, rows: nat, cols: nat) -> Seq<Seq<T>> {
    Seq::new(rows, |r: int| Seq::new(cols, |c: int| data[r * cols + c]))
}

/// Appending one row of width `cols` to a buffer of `p` full rows adds that
/// row to its grid.
pub proof fn lemma_grid_push_row<T>(data: Seq<T>, row: Seq<T>, p: nat, cols: nat)
    requires
        data.len() == p * cols,
        row.len() == cols,
    ensures
        (data + row).len() == (p + 1) * cols,
        grid(data + row, p + 1, cols) =~= grid(data, p, cols).push(row),
{
    let joined = data + row;
    assert((p + 1) * cols == p * cols + cols) by (nonlinear_arith);
    assert forall|i: int| 0 <= i < p + 1 implies #[trigger] grid(joined, p + 1, cols)[i]
        =~= grid(data, p, cols).push(row)[i] by {
        assert forall|c: int| 0 <= c < cols implies grid(joined, p + 1, cols)[i][c]
            == grid(data, p, cols).push(row)[i][c] by {
            if i < p {
                lemma_cell_index(i, c, p as int, cols as int);
            } else {
                assert(i * cols == p * cols);
            }
        }
    }
}

/// Every vector of `vs` has `len` elements.
pub open spec fn all_of_len<T>(vs: Seq<Vector<T>>, len: nat) -> bool {
    forall|i: int| 0 <= i < vs.len() ==> (#[trigger] vs[i])@.len() == len
}

/// `vs` is non-empty and all its vectors are as long as the first.
pub open spec fn rectangular<T>(vs: Seq<Vector<T>>) -> bool {
    vs.len() > 0 && all_of_len(vs, vs[0]@.len())
}

/// Two buffers of `rows * cols` entries with equal grids are equal.
pub proof fn lemma_grid_determines_data<T>(a: Seq<T>, b: Seq<T>, rows: nat, cols: nat)
    requires
        a.len() == rows * cols,
        b.len() == rows * cols,
        grid(a, rows, cols) == grid(b, rows, cols),
    ensures
        a == b,
{
    assert forall|k: int| 0 <= k < a.len() implies a[k] == b[k] by {
        let c = cols as int;
        if c == 0 {
            assert(rows * cols == 0) by (nonlinear_arith)
                requires
                    cols == 0,
            ;
        }
        lemma_fundamental_div_mod(k, c);
        lemma_mod_pos_bound(k, c);
        lemma_div_pos_is_pos(k, c);
        let i = k / c;
        let j = k % c;
        assert(i < rows) by (nonlinear_arith)
            requires
                k == c * i + j,
                0 <= j,
                k < rows * c,
                c > 0,
        ;
        assert(i * c + j == k) by (nonlinear_arith)
            requires
                k == c * i + j,
        ;
        assert(0 <= j < cols);
        assert(grid(a, rows, cols)[i][j] == a[i * c + j]);
        assert(grid(b, rows, cols)[i][j] == b[i * c + j]);
    }
    assert(a =~= b);
}

impl<T> View for Matrix<T> {
    /// The matrix as a sequence of rows.
    type V = Seq<Seq<T>>;

    open spec fn view(&self) -> Seq<Seq<T>> {
        grid(self.data@, self.rows as nat, self.cols as nat)
    }
}

/// An element-by-element copy of `v`.
fn copy_all<T: Copy>(v: &Vec<T>) -> (r: Vec<T>)
    ensures
        r@ == v@,
{
    let mut r: Vec<T> = Vec::with_capacity(v.len());
    let mut i: usize = 0;
    while i < v.len()
        invariant
            i <= v@.len(),
            r@ =~= v@.take(i as int),
        decreases v@.len() - i,
    {
        r.push(v[i]);
        i += 1;
    }
    proof {
        assert(v@.take(i as int) =~= v@);
    }
    r
}

/// Concatenates `parts`, each of length `cols`, into a row-major buffer.
fn concat_rows<T: Copy>(parts: &Vec<Vector<T>>, cols: usize) -> (r: Vec<T>)
    requires
        forall|i: int| 0 <= i < parts@.len() ==> (#[trigger] parts@[i])@.len() == cols,
        parts@.len() * cols <= usize::MAX,
    ensures
        r@.len() == parts@.len() * cols,
        grid(r@, parts@.len(), cols as nat) =~= parts@.map_values(|v: Vector<T>| v@),
{
    let mut data: Vec<T> = Vec::new();
    let mut p: usize = 0;
    while p < parts.len()
        invariant
            p <= parts@.len(),
            forall|i: int| 0 <= i < parts@.len() ==> (#[trigger] parts@[i])@.len() == cols,
            data@.len() == p * cols,
            grid(data@, p as nat, cols as nat) =~= parts@.map_values(|v: Vector<T>| v@).take(
                p as int,
            ),
        decreases parts@.len() - p,
    {
        let ghost start = data@;
        let row = &parts[p];
        let mut k: usize = 0;
        while k < cols
            invariant
                k <= cols,
                row@.len() == cols,
                data@ == start + row@.take(k as int),
            decreases cols - k,
        {
            data.push(row.data[k]);
            k += 1;
            proof {
                assert(row@.take(k as int) =~= row@.take(k - 1).push(row@[k - 1]));
            }
        }
        proof {
            assert(row@.take(cols as int) =~= row@);
            lemma_grid_push_row(start, row@, p as nat, cols as nat);
            assert(parts@.map_values(|v: Vector<T>| v@).take(p + 1) =~= parts@.map_values(
                |v: Vector<T>| v@,
            ).take(p as int).push(row@));
        }
        p += 1;
    }
    proof {
        assert(parts@.map_values(|v: Vector<T>| v@).take(p as int) =~= parts@.map_values(
            |v: Vector<T>| v@,
        ));
    }
    data
}

impl<T> Matrix<T> {
    /// The flat buffer holds exactly `rows * cols` entries.
    pub open spec fn wf(&self) -> bool {
        &&& self.data@.len() == self.rows * self.cols
        &&& self.rows * self.cols <= usize::MAX
    }


    /// Same shape and same entries.
    pub open spec fn same(&self, other: &Matrix<T>) -> bool {
        &&& self.rows == other.rows
        &&& self.cols == other.cols
        &&& self@ == other@
    }

    /// Builds a matrix from a row-major buffer; fails unless the buffer
    /// holds exactly `rows * cols` entries.
    pub fn from_vec(rows: usize, cols: usize, data: Vec<T>) -> (r: Result<Self, MathError>)
        ensures
            match r {
                Ok(m) => {
                    &&& data@.len() == rows * cols
                    &&& m.wf()
                    &&& m.rows == rows
                    &&& m.cols == cols
                    &&& m.data@ == data@
                },
                Err(e) => data@.len() != rows * cols && e == MathError::DimensionMismatch,
            },
    {
        let len = data.len();
        match rows.checked_mul(cols) {
            Some(n) => {
                if len != n {
                    return Err(MathError::DimensionMismatch);
                }
                Ok(Matrix { rows, cols, data })
            },
            None => Err(MathError::DimensionMismatch),
        }
    }

    /// Reads entry `(row, col)`; `None` outside the matrix.
    pub fn get(&self, row: usize, col: usize) -> (r: Option<&T>)
        requires
            self.wf(),
        ensures
            match r {
                Some(x) => row < self.rows && col < self.cols && *x == self@[row as int][col as int],
                None => !(row < self.rows && col < self.cols),
            },
    {
        if row >= self.rows || col >= self.cols {
            return None;
        }
        proof {
            lemma_cell_index(row as int, col as int, self.rows as int, self.cols as int);
        }
        Some(&self.data[row * self.cols + col])
    }

    /// A mutable reference to entry `(row, col)`; `None` outside the matrix.
    pub fn get_mut(&mut self, row: usize, col: usize) -> (r: Option<&mut T>)
        requires
            old(self).wf(),
        ensures
            match r {
                Some(x) => {
                    &&& row < old(self).rows && col < old(self).cols
                    &&& *x == old(self)@[row as int][col as int]
                    &&& final(self).rows == old(self).rows
                    &&& final(self).cols == old(self).cols
                    &&& final(self).data@ == old(self).data@.update(
                        row * old(self).cols + col,
                        *final(x),
                    )
                },
                None => {
                    &&& !(row < old(self).rows && col < old(self).cols)
                    &&& *final(self) == *old(self)
                },
            },
    {
        if row >= self.rows || col >= self.cols {
            return None;
        }
        proof {
            lemma_cell_index(row as int, col as int, self.rows as int, self.cols as int);
        }
        let cols = self.cols;
        Some(&mut self.data[row * cols + col])
    }

    /// Overwrites entry `(row, col)`; fails with `IndexOutOfBounds`, leaving
    /// the matrix unchanged, outside the matrix.
    pub fn set(&mut self, row: usize, col: usize, value: T) -> (r: Result<(), MathError>)
        requires
            old(self).wf(),
        ensures
            final(self).wf(),
            final(self).rows == old(self).rows,
            final(self).cols == old(self).cols,
            match r {
                Ok(_) => {
                    &&& row < old(self).rows && col < old(self).cols
                    &&& final(self)@ == old(self)@.update(
                        row as int,
                        old(self)@[row as int].update(col as int, value),
                    )
                },
                Err(e) => {
                    &&& !(row < old(self).rows && col < old(self).cols)
                    &&& e == MathError::IndexOutOfBounds
                    &&& *final(self) == *old(self)
                },
            },
    {
        if row >= self.rows || col >= self.cols {
            return Err(MathError::IndexOutOfBounds);
        }
        proof {
            lemma_cell_index(row as int, col as int, self.rows as int, self.cols as int);
        }
        let ghost pre = self@;
        self.data.set(row * self.cols + col, value);
        proof {
            let post = pre.update(row as int, pre[row as int].update(col as int, value));
            assert forall|i: int| 0 <= i < self.rows implies #[trigger] self@[i] =~= post[i] by {
                assert forall|j: int| 0 <= j < self.cols implies self@[i][j] == post[i][j] by {
                    lemma_cell_index(i, j, self.rows as int, self.cols as int);
                    if i != row || j != col {
                        assert(i * self.cols + j != row * self.cols + col) by (nonlinear_arith)
                            requires
                                i != row || j != col,
                                0 <= j < self.cols,
                                0 <= col < self.cols,
                        ;
                    }
                }
            }
            assert(self@ =~= post);
        }
        Ok(())
    }
}

impl<T: Copy> Matrix<T> {
    /// Entry `(r, c)` of a well-formed matrix.
    fn entry(&self, r: usize, c: usize) -> (x: T)
        requires
            self.wf(),
            r < self.rows,
            c < self.cols,
        ensures
            x == self@[r as int][c as int],
    {
        proof {
            lemma_cell_index(r as int, c as int, self.rows as int, self.cols as int);
        }
        self.data[r * self.cols + c]
    }

    /// Row `r` as a new vector.
    fn row_of(&self, r: usize) -> (v: Vector<T>)
        requires
            self.wf(),
            r < self.rows,
        ensures
            v@ == self@[r as int],
    {
        let mut data: Vec<T> = Vec::with_capacity(self.cols);
        let mut c: usize = 0;
        while c < self.cols
            invariant
                self.wf(),
                r < self.rows,
                c <= self.cols,
                data@ =~= self@[r as int].take(c as int),
            decreases self.cols - c,
        {
            data.push(self.entry(r, c));
            c += 1;
        }
        Vector { data }
    }

    /// Column `c` as a new vector.
    fn column_of(&self, c: usize) -> (v: Vector<T>)
        requires
            self.wf(),
            c < self.cols,
        ensures
            v@.len() == self.rows,
            forall|r: int| 0 <= r < self.rows ==> v@[r] == #[trigger] self@[r][c as int],
    {
        let mut data: Vec<T> = Vec::with_capacity(self.rows);
        let mut r: usize = 0;
        while r < self.rows
            invariant
                self.wf(),
                c < self.cols,
                r <= self.rows,
                data@.len() == r,
                forall|i: int| 0 <= i < r ==> data@[i] == #[trigger] self@[i][c as int],
            decreases self.rows - r,
        {
            data.push(self.entry(r, c));
            r += 1;
        }
        Vector { data }
    }

    /// Row `index` as a new, independent vector; `None` past the last row.
    pub fn row(&self, index: usize) -> (r: Option<Vector<T>>)
        requires
            self.wf(),
        ensures
            match r {
                Some(v) => index < self.rows && v@ == self@[index as int],
                None => index >= self.rows,
            },
    {
        if index >= self.rows {
            None
        } else {
            Some(self.row_of(index))
        }
    }

    /// Column `index` as a new, independent vector; `None` past the last
    /// column.
    pub fn column(&self, index: usize) -> (r: Option<Vector<T>>)
        requires
            self.wf(),
        ensures
            match r {
                Some(v) => {
                    &&& index < self.cols
                    &&& v@.len() == self.rows
                    &&& forall|i: int| 0 <= i < self.rows ==> v@[i] == #[trigger] self@[i][index as int]
                },
                None => index >= self.cols,
            },
    {
        if index >= self.cols {
            None
        } else {
            Some(self.column_of(index))
        }
    }

    /// The `cols x rows` matrix whose entry `(i, j)` is entry `(j, i)` here.
    pub fn transpose(&self) -> (t: Self)
        requires
            self.wf(),
        ensures
            is_transpose(self, &t),
    {
        let mut parts: Vec<Vector<T>> = Vec::with_capacity(self.cols);
        let mut c: usize = 0;
        while c < self.cols
            invariant
                self.wf(),
                c <= self.cols,
                parts@.len() == c,
                forall|i: int| 0 <= i < c ==> (#[trigger] parts@[i])@.len() == self.rows,
                forall|i: int, j: int|
                    0 <= i < c && 0 <= j < self.rows ==> #[trigger] parts@[i]@[j] == self@[j][i],
            decreases self.cols - c,
        {
            parts.push(self.column_of(c));
            c += 1;
        }
        proof {
            assert(self.cols * self.rows == self.rows * self.cols) by (nonlinear_arith);
        }
        let data = concat_rows(&parts, self.rows);
        let t = Matrix { rows: self.cols, cols: self.rows, data };
        proof {
            assert forall|i: int, j: int|
                0 <= i < self.cols && 0 <= j < self.rows implies #[trigger] t@[i][j] == self@[j][i] by {
                assert(t@[i] == parts@.map_values(|v: Vector<T>| v@)[i]);
            }
        }
        t
    }

    /// The same entries, in the same row-major order, read as a
    /// `new_rows x new_cols` matrix; fails unless the entry count agrees.
    pub fn reshape(&self, new_rows: usize, new_cols: usize) -> (r: Result<Self, MathError>)
        requires
            self.wf(),
        ensures
            match r {
                Ok(m) => {
                    &&& new_rows * new_cols == self.rows * self.cols
                    &&& m.wf()
                    &&& m.rows == new_rows
                    &&& m.cols == new_cols
                    &&& m.data@ == self.data@
                },
                Err(e) => new_rows * new_cols != self.rows * self.cols && e
                    == MathError::DimensionMismatch,
            },
    {
        match new_rows.checked_mul(new_cols) {
            Some(n) => {
                if n != self.rows * self.cols {
                    return Err(MathError::DimensionMismatch);
                }
                Ok(Matrix { rows: new_rows, cols: new_cols, data: copy_all(&self.data) })
            },
            None => Err(MathError::DimensionMismatch),
        }
    }
}

impl<T: Copy> Matrix<T> {
    /// Stacks `rows` as the rows of a matrix; fails when there is no row or
    /// when the rows differ in length.
    pub fn from_rows(rows: Vec<Vector<T>>) -> (r: Result<Self, MathError>)
        requires
            rows@.len() > 0 ==> rows@.len() * rows@[0]@.len() <= usize::MAX,
        ensures
            match r {
                Ok(m) => {
                    &&& rectangular(rows@)
                    &&& m.wf()
                    &&& m.rows == rows@.len()
                    &&& m.cols == rows@[0]@.len()
                    &&& m@ == rows@.map_values(|v: Vector<T>| v@)
                },
                Err(e) => !rectangular(rows@) && e == MathError::DimensionMismatch,
            },
    {
        if rows.len() == 0 {
            return Err(MathError::DimensionMismatch);
        }
        let num_cols = rows[0].len();
        let mut i: usize = 0;
        while i < rows.len()
            invariant
                i <= rows@.len(),
                num_cols == rows@[0]@.len(),
                all_of_len(rows@.take(i as int), num_cols as nat),
            decreases rows@.len() - i,
        {
            if rows[i].len() != num_cols {
                proof {
                    assert(!all_of_len(rows@, num_cols as nat));
                }
                return Err(MathError::DimensionMismatch);
            }
            proof {
                assert forall|k: int| 0 <= k < i + 1 implies (#[trigger] rows@.take(i + 1)[k])@.len()
                    == num_cols by {
                    if k < i {
                        assert(rows@.take(i + 1)[k] == rows@.take(i as int)[k]);
                    }
                }
            }
            i += 1;
        }
        proof {
            assert(rows@.take(i as int) =~= rows@);
        }
        let data = concat_rows(&rows, num_cols);
        Ok(Matrix { rows: rows.len(), cols: num_cols, data })
    }

    /// Places `cols` side by side as the columns of a matrix; fails when
    /// there is no column or when the columns differ in length.
    pub fn from_columns(cols: Vec<Vector<T>>) -> (r: Result<Self, MathError>)
        requires
            cols@.len() > 0 ==> cols@.len() * cols@[0]@.len() <= usize::MAX,
        ensures
            match r {
                Ok(m) => {
                    &&& rectangular(cols@)
                    &&& m.wf()
                    &&& m.rows == cols@[0]@.len()
                    &&& m.cols == cols@.len()
                    &&& forall|i: int, j: int|
                        0 <= i < m.rows && 0 <= j < m.cols ==> #[trigger] m@[i][j] == cols@[j]@[i]
                },
                Err(e) => !rectangular(cols@) && e == MathError::DimensionMismatch,
            },
    {
        if cols.len() == 0 {
            return Err(MathError::DimensionMismatch);
        }
        let num_rows = cols[0].len();
        let num_cols = cols.len();
        let mut i: usize = 0;
        while i < num_cols
            invariant
                i <= num_cols,
                num_cols == cols@.len(),
                num_rows == cols@[0]@.len(),
                all_of_len(cols@.take(i as int), num_rows as nat),
            decreases num_cols - i,
        {
            if cols[i].len() != num_rows {
                proof {
                    assert(!all_of_len(cols@, num_rows as nat));
                }
                return Err(MathError::DimensionMismatch);
            }
            proof {
                assert forall|k: int| 0 <= k < i + 1 implies (#[trigger] cols@.take(i + 1)[k])@.len()
                    == num_rows by {
                    if k < i {
                        assert(cols@.take(i + 1)[k] == cols@.take(i as int)[k]);
                    }
                }
            }
            i += 1;
        }
        proof {
            assert(cols@.take(i as int) =~= cols@);
        }
        let mut parts: Vec<Vector<T>> = Vec::with_capacity(num_rows);
        let mut r: usize = 0;
        while r < num_rows
            invariant
                r <= num_rows,
                num_cols == cols@.len(),
                num_rows == cols@[0]@.len(),
                all_of_len(cols@, num_rows as nat),
                parts@.len() == r,
                all_of_len(parts@, num_cols as nat),
                forall|a: int, b: int|
                    0 <= a < r && 0 <= b < num_cols ==> #[trigger] parts@[a]@[b] == cols@[b]@[a],
            decreases num_rows - r,
        {
            let mut data: Vec<T> = Vec::with_capacity(num_cols);
            let mut c: usize = 0;
            while c < num_cols
                invariant
                    r < num_rows,
                    c <= num_cols,
                    num_cols == cols@.len(),
                    all_of_len(cols@, num_rows as nat),
                    data@.len() == c,
                    forall|b: int| 0 <= b < c ==> #[trigger] data@[b] == cols@[b]@[r as int],
                decreases num_cols - c,
            {
                assert(cols@[c as int]@.len() == num_rows);
                data.push(cols[c].data[r]);
                c += 1;
            }
            parts.push(Vector { data });
            r += 1;
        }
        proof {
            assert(num_rows * num_cols == num_cols * num_rows) by (nonlinear_arith);
        }
        let data = concat_rows(&parts, num_cols);
        let m = Matrix { rows: num_rows, cols: num_cols, data };
        proof {
            assert forall|i: int, j: int|
                0 <= i < m.rows && 0 <= j < m.cols implies #[trigger] m@[i][j] == cols@[j]@[i] by {
                assert(m@[i] == parts@.map_values(|v: Vector<T>| v@)[i]);
            }
        }
        Ok(m)
    }
}

/// The square matrix `a` (as rows) without its first row and its column `j`.
pub open spec fn minor<T>(a: Seq<Seq<T>>, j: int) -> Seq<Seq<T>> {
    a.subrange(1, a.len() as int).map_values(|row: Seq<T>| row.remove(j))
}

/// Determinant by Laplace expansion along the first row, with the `1 x 1`
/// and `2 x 2` cases written out; the empty expansion (`0 x 0`) is zero.
pub open spec fn det(a: Seq<Seq<i64>>) -> int
    decreases a.len(), a.len() + 1,
{
    if a.len() == 1 {
        a[0][0] as int
    } else if a.len() == 2 {
        a[0][0] * a[1][1] - a[0][1] * a[1][0]
    } else {
        cofactor_sum(a, a.len() as int)
    }
}

/// The signed cofactor terms of the first row over columns `0..j`.
pub open spec fn cofactor_sum(a: Seq<Seq<i64>>, j: int) -> int
    decreases a.len(), j,
{
    if j <= 0 || a.len() == 0 {
        0
    } else {
        let term = a[0][j - 1] * det(minor(a, j - 1));
        if (j - 1) % 2 == 0 {
            cofactor_sum(a, j - 1) + term
        } else {
            cofactor_sum(a, j - 1) - term
        }
    }
}

/// Every intermediate value of the cofactor expansion of `a` fits in `i64`.
pub open spec fn det_fits(a: Seq<Seq<i64>>) -> bool
    decreases a.len(), a.len() + 1,
{
    if a.len() == 1 {
        true
    } else if a.len() == 2 {
        &&& fits(a[0][0] * a[1][1])
        &&& fits(a[0][1] * a[1][0])
        &&& fits(a[0][0] * a[1][1] - a[0][1] * a[1][0])
    } else {
        expansion_fits(a, a.len() as int)
    }
}

/// The expansion of `a` over columns `0..j` stays within `i64`.
pub open spec fn expansion_fits(a: Seq<Seq<i64>>, j: int) -> bool
    decreases a.len(), j,
{
    if j <= 0 || a.len() == 0 {
        true
    } else {
        &&& expansion_fits(a, j - 1)
        &&& det_fits(minor(a, j - 1))
        &&& fits(a[0][j - 1] * det(minor(a, j - 1)))
        &&& fits(cofactor_sum(a, j))
    }
}

/// `a[i][0] * b[0][j] + ... + a[i][len - 1] * b[len - 1][j]`.
pub open spec fn dot_prefix(a: Seq<Seq<i64>>, b: Seq<Seq<i64>>, i: int, j: int, len: int) -> int
    decreases len,
{
    if len <= 0 {
        0
    } else {
        dot_prefix(a, b, i, j, len - 1) + a[i][len - 1] * b[len - 1][j]
    }
}

/// Step `k` of the sum for cell `(i, j)` of `a * b` stays within `i64`.
pub open spec fn product_step_fits(a: Seq<Seq<i64>>, b: Seq<Seq<i64>>, i: int, j: int, k: int) -> bool {
    &&& fits(a[i][k] * b[k][j])
    &&& fits(dot_prefix(a, b, i, j, k + 1))
}

/// Every product and partial sum of the matrix product `a * b` fits in `i64`.
pub open spec fn product_fits(a: &Matrix<i64>, b: &Matrix<i64>) -> bool {
    forall|i: int, j: int, k: int|
        0 <= i < a.rows && 0 <= j < b.cols && 0 <= k < a.cols ==> #[trigger] product_step_fits(
            a@,
            b@,
            i,
            j,
            k,
        )
}

/// `p` is the matrix product `a * b`.
pub open spec fn is_product(a: &Matrix<i64>, b: &Matrix<i64>, p: &Matrix<i64>) -> bool {
    &&& p.wf()
    &&& p.rows == a.rows
    &&& p.cols == b.cols
    &&& forall|i: int, j: int|
        0 <= i < p.rows && 0 <= j < p.cols ==> #[trigger] p@[i][j] == dot_prefix(a@, b@, i, j, a.cols as int)
}

/// `a[0][0] + ... + a[k - 1][k - 1]`.
pub open spec fn diag_sum(a: Seq<Seq<i64>>, k: int) -> int
    decreases k,
{
    if k <= 0 {
        0
    } else {
        diag_sum(a, k - 1) + a[k - 1][k - 1]
    }
}

/// Every partial sum of the diagonal of `a` fits in `i64`.
pub open spec fn trace_fits(a: Seq<Seq<i64>>) -> bool {
    forall|k: int| 0 < k <= a.len() ==> fits(#[trigger] diag_sum(a, k))
}

/// Every entry of `a + b` fits in `i64`.
pub open spec fn addition_fits(a: &Matrix<i64>, b: &Matrix<i64>) -> bool {
    forall|i: int, j: int|
        0 <= i < a.rows && 0 <= j < a.cols ==> fits(#[trigger] a@[i][j] + b@[i][j])
}

/// Every entry of `a - b` fits in `i64`.
pub open spec fn subtraction_fits(a: &Matrix<i64>, b: &Matrix<i64>) -> bool {
    forall|i: int, j: int|
        0 <= i < a.rows && 0 <= j < a.cols ==> fits(#[trigger] a@[i][j] - b@[i][j])
}

/// Every entry of the elementwise product of `a` and `b` fits in `i64`.
pub open spec fn hadamard_fits(a: &Matrix<i64>, b: &Matrix<i64>) -> bool {
    forall|i: int, j: int|
        0 <= i < a.rows && 0 <= j < a.cols ==> fits(#[trigger] a@[i][j] * b@[i][j])
}

/// Every entry of `a` times `s` fits in `i64`.
pub open spec fn scaled_fits(a: &Matrix<i64>, s: i64) -> bool {
    forall|i: int, j: int| 0 <= i < a.rows && 0 <= j < a.cols ==> fits(#[trigger] a@[i][j] * s)
}

/// `a` and `b` have the same number of rows and of columns.
pub open spec fn same_shape<T>(a: &Matrix<T>, b: &Matrix<T>) -> bool {
    a.rows == b.rows && a.cols == b.cols
}

/// Fitting over a prefix of columns follows from fitting over a longer one.
proof fn lemma_expansion_fits_prefix(a: Seq<Seq<i64>>, j: int, k: int)
    requires
        0 <= j <= k,
        expansion_fits(a, k),
    ensures
        expansion_fits(a, j),
    decreases k - j,
{
    if j < k {
        lemma_expansion_fits_prefix(a, j, k - 1);
    }
}

impl<T: Copy> Matrix<T> {
    /// The square matrix without its first row and its column `j`.
    fn minor_of(&self, j: usize) -> (m: Self)
        requires
            self.wf(),
            self.rows == self.cols,
            j < self.cols,
        ensures
            m.wf(),
            m.rows == self.rows - 1,
            m.cols == self.cols - 1,
            m@ =~= minor(self@, j as int),
    {
        let n = self.rows;
        let mut parts: Vec<Vector<T>> = Vec::with_capacity(n - 1);
        let mut i: usize = 1;
        while i < n
            invariant
                self.wf(),
                n == self.rows,
                n == self.cols,
                j < n,
                1 <= i <= n,
                parts@.len() == i - 1,
                all_of_len(parts@, (n - 1) as nat),
                forall|a: int| 0 <= a < i - 1 ==> (#[trigger] parts@[a])@ =~= minor(self@, j as int)[a],
            decreases n - i,
        {
            let mut data: Vec<T> = Vec::with_capacity(n - 1);
            let mut k: usize = 0;
            while k < n
                invariant
                    self.wf(),
                    n == self.rows,
                    n == self.cols,
                    j < n,
                    1 <= i < n,
                    k <= n,
                    data@ =~= if k <= j {
                        self@[i as int].take(k as int)
                    } else {
                        self@[i as int].take(k as int).remove(j as int)
                    },
                decreases n - k,
            {
                if k != j {
                    data.push(self.entry(i, k));
                }
                k += 1;
            }
            proof {
                assert(self@[i as int].take(n as int) =~= self@[i as int]);
                assert(minor(self@, j as int)[i - 1] == self@[i as int].remove(j as int));
            }
            parts.push(Vector { data });
            i += 1;
        }
        proof {
            assert((n - 1) as int * (n - 1) as int <= n * n) by (nonlinear_arith)
                requires
                    n >= 1,
            ;
        }
        let data = concat_rows(&parts, n - 1);
        Matrix { rows: n - 1, cols: n - 1, data }
    }
}

impl Matrix<i64> {
    /// Cell `(i, j)` of `self * rhs`: row `i` of `self` against column `j`
    /// of `rhs`, summed from zero.
    fn product_cell(&self, rhs: &Self, i: usize, j: usize) -> (x: i64)
        requires
            self.wf(),
            rhs.wf(),
            self.cols == rhs.rows,
            product_fits(self, rhs),
            i < self.rows,
            j < rhs.cols,
        ensures
            x == dot_prefix(self@, rhs@, i as int, j as int, self.cols as int),
    {
        let mut acc: i64 = 0;
        let mut k: usize = 0;
        while k < self.cols
            invariant
                self.wf(),
                rhs.wf(),
                self.cols == rhs.rows,
                product_fits(self, rhs),
                i < self.rows,
                j < rhs.cols,
                k <= self.cols,
                acc == dot_prefix(self@, rhs@, i as int, j as int, k as int),
            decreases self.cols - k,
        {
            assert(product_step_fits(self@, rhs@, i as int, j as int, k as int));
            acc = acc + self.entry(i, k) * rhs.entry(k, j);
            k += 1;
        }
        acc
    }

    /// The matrix product `self * rhs`; fails unless `self.cols == rhs.rows`.
    pub fn mul(self, rhs: Self) -> (r: Result<Self, MathError>)
        requires
            self.wf(),
            rhs.wf(),
            self.cols == rhs.rows ==> product_fits(&self, &rhs) && self.rows * rhs.cols
                <= usize::MAX,
        ensures
            match r {
                Ok(p) => self.cols == rhs.rows && is_product(&self, &rhs, &p),
                Err(e) => self.cols != rhs.rows && e == MathError::DimensionMismatch,
            },
    {
        if self.cols != rhs.rows {
            return Err(MathError::DimensionMismatch);
        }
        let mut parts: Vec<Vector<i64>> = Vec::with_capacity(self.rows);
        let mut i: usize = 0;
        while i < self.rows
            invariant
                self.wf(),
                rhs.wf(),
                self.cols == rhs.rows,
                product_fits(&self, &rhs),
                i <= self.rows,
                parts@.len() == i,
                all_of_len(parts@, rhs.cols as nat),
                forall|a: int, b: int|
                    0 <= a < i && 0 <= b < rhs.cols ==> #[trigger] parts@[a]@[b] == dot_prefix(
                        self@,
                        rhs@,
                        a,
                        b,
                        self.cols as int,
                    ),
            decreases self.rows - i,
        {
            let mut data: Vec<i64> = Vec::with_capacity(rhs.cols);
            let mut j: usize = 0;
            while j < rhs.cols
                invariant
                    self.wf(),
                    rhs.wf(),
                    self.cols == rhs.rows,
                    product_fits(&self, &rhs),
                    i < self.rows,
                    j <= rhs.cols,
                    data@.len() == j,
                    forall|b: int| 0 <= b < j ==> #[trigger] data@[b] == dot_prefix(
                        self@,
                        rhs@,
                        i as int,
                        b,
                        self.cols as int,
                    ),
                decreases rhs.cols - j,
            {
                data.push(self.product_cell(&rhs, i, j));
                j += 1;
            }
            parts.push(Vector { data });
            i += 1;
        }
        let data = concat_rows(&parts, rhs.cols);
        let p = Matrix { rows: self.rows, cols: rhs.cols, data };
        proof {
            assert forall|a: int, b: int|
                0 <= a < p.rows && 0 <= b < p.cols implies #[trigger] p@[a][b] == dot_prefix(
                self@,
                rhs@,
                a,
                b,
                self.cols as int,
            ) by {
                assert(p@[a] == parts@.map_values(|v: Vector<i64>| v@)[a]);
            }
        }
        Ok(p)
    }

    /// Determinant by cofactor expansion along the first row; fails unless
    /// the matrix is square. Exponential in the size of the matrix.
    pub fn determinant(&self) -> (r: Result<i64, MathError>)
        requires
            self.wf(),
            self.rows == self.cols ==> det_fits(self@),
        ensures
            match r {
                Ok(d) => self.rows == self.cols && d == det(self@),
                Err(e) => self.rows != self.cols && e == MathError::DimensionMismatch,
            },
        decreases self.rows,
    {
        if self.rows != self.cols {
            return Err(MathError::DimensionMismatch);
        }
        let n = self.rows;
        if n == 1 {
            return Ok(self.entry(0, 0));
        }
        if n == 2 {
            let a = self.entry(0, 0);
            let b = self.entry(0, 1);
            let c = self.entry(1, 0);
            let d = self.entry(1, 1);
            return Ok(a * d - b * c);
        }
        proof {
            lemma_expansion_fits_prefix(self@, 0, n as int);
        }
        let mut total: i64 = 0;
        let mut j: usize = 0;
        while j < n
            invariant
                self.wf(),
                n == self.rows,
                n == self.cols,
                n != 1 && n != 2,
                j <= n,
                expansion_fits(self@, n as int),
                total == cofactor_sum(self@, j as int),
            decreases n - j,
        {
            proof {
                lemma_expansion_fits_prefix(self@, j + 1, n as int);
            }
            let sub = self.minor_of(j);
            let sub_det = match sub.determinant() {
                Ok(d) => d,
                Err(e) => return Err(e),
            };
            let term = self.entry(0, j) * sub_det;
            if j % 2 == 0 {
                total = total + term;
            } else {
                total = total - term;
            }
            j += 1;
        }
        Ok(total)
    }
}

impl<T: Copy> Matrix<T> {
    /// A `rows x cols` matrix with every entry equal to `value`.
    fn filled(rows: usize, cols: usize, value: T) -> (m: Self)
        requires
            rows * cols <= usize::MAX,
        ensures
            m.wf(),
            m.rows == rows,
            m.cols == cols,
            forall|i: int, j: int| 0 <= i < rows && 0 <= j < cols ==> #[trigger] m@[i][j] == value,
    {
        let n = rows * cols;
        let mut data: Vec<T> = Vec::with_capacity(n);
        let mut k: usize = 0;
        while k < n
            invariant
                k <= n,
                data@.len() == k,
                forall|x: int| 0 <= x < k ==> #[trigger] data@[x] == value,
            decreases n - k,
        {
            data.push(value);
            k += 1;
        }
        let m = Matrix { rows, cols, data };
        proof {
            assert forall|i: int, j: int| 0 <= i < rows && 0 <= j < cols implies #[trigger] m@[i][j]
                == value by {
                lemma_cell_index(i, j, rows as int, cols as int);
            }
        }
        m
    }

    /// The matrix of `f(a, b)` over the cells of two matrices of one shape.
    fn combine<F: Fn(T, T) -> T>(&self, rhs: &Self, f: F) -> (m: Self)
        requires
            self.wf(),
            rhs.wf(),
            self.rows == rhs.rows,
            self.cols == rhs.cols,
            forall|i: int, j: int|
                0 <= i < self.rows && 0 <= j < self.cols ==> f.requires(
                    (#[trigger] self@[i][j], rhs@[i][j]),
                ),
        ensures
            m.wf(),
            m.rows == self.rows,
            m.cols == self.cols,
            forall|i: int, j: int|
                0 <= i < self.rows && 0 <= j < self.cols ==> f.ensures(
                    (self@[i][j], rhs@[i][j]),
                    #[trigger] m@[i][j],
                ),
    {
        let mut parts: Vec<Vector<T>> = Vec::with_capacity(self.rows);
        let mut i: usize = 0;
        while i < self.rows
            invariant
                self.wf(),
                rhs.wf(),
                self.rows == rhs.rows,
                self.cols == rhs.cols,
                forall|a: int, b: int|
                    0 <= a < self.rows && 0 <= b < self.cols ==> f.requires(
                        (#[trigger] self@[a][b], rhs@[a][b]),
                    ),
                i <= self.rows,
                parts@.len() == i,
                all_of_len(parts@, self.cols as nat),
                forall|a: int, b: int|
                    0 <= a < i && 0 <= b < self.cols ==> f.ensures(
                        (self@[a][b], rhs@[a][b]),
                        #[trigger] parts@[a]@[b],
                    ),
            decreases self.rows - i,
        {
            let mut data: Vec<T> = Vec::with_capacity(self.cols);
            let mut j: usize = 0;
            while j < self.cols
                invariant
                    self.wf(),
                    rhs.wf(),
                    self.rows == rhs.rows,
                    self.cols == rhs.cols,
                    forall|a: int, b: int|
                        0 <= a < self.rows && 0 <= b < self.cols ==> f.requires(
                            (#[trigger] self@[a][b], rhs@[a][b]),
                        ),
                    i < self.rows,
                    j <= self.cols,
                    data@.len() == j,
                    forall|b: int|
                        0 <= b < j ==> f.ensures(
                            (self@[i as int][b], rhs@[i as int][b]),
                            #[trigger] data@[b],
                        ),
                decreases self.cols - j,
            {
                let x = self.entry(i, j);
                let y = rhs.entry(i, j);
                data.push(f(x, y));
                j += 1;
            }
            parts.push(Vector { data });
            i += 1;
        }
        let data = concat_rows(&parts, self.cols);
        let m = Matrix { rows: self.rows, cols: self.cols, data };
        proof {
            assert forall|a: int, b: int|
                0 <= a < self.rows && 0 <= b < self.cols implies f.ensures(
                (self@[a][b], rhs@[a][b]),
                #[trigger] m@[a][b],
            ) by {
                assert(m@[a] == parts@.map_values(|v: Vector<T>| v@)[a]);
            }
        }
        m
    }
}

impl Matrix<i64> {
    /// A `rows x cols` matrix whose entries all start at zero, so that it
    /// can be read before being filled.
    pub fn new(rows: usize, cols: usize) -> (m: Self)
        requires
            rows * cols <= usize::MAX,
        ensures
            m.wf(),
            m.rows == rows,
            m.cols == cols,
            forall|i: int, j: int| 0 <= i < rows && 0 <= j < cols ==> #[trigger] m@[i][j] == 0,
    {
        Self::filled(rows, cols, 0)
    }

    /// A `rows x cols` matrix of zeros.
    pub fn zeroes(rows: usize, cols: usize) -> (m: Self)
        requires
            rows * cols <= usize::MAX,
        ensures
            m.wf(),
            m.rows == rows,
            m.cols == cols,
            forall|i: int, j: int| 0 <= i < rows && 0 <= j < cols ==> #[trigger] m@[i][j] == 0,
    {
        Self::filled(rows, cols, 0)
    }

    /// A `rows x cols` matrix of ones.
    pub fn ones(rows: usize, cols: usize) -> (m: Self)
        requires
            rows * cols <= usize::MAX,
        ensures
            m.wf(),
            m.rows == rows,
            m.cols == cols,
            forall|i: int, j: int| 0 <= i < rows && 0 <= j < cols ==> #[trigger] m@[i][j] == 1,
    {
        Self::filled(rows, cols, 1)
    }

    /// The `size x size` identity matrix.
    pub fn identity(size: usize) -> (m: Self)
        requires
            size * size <= usize::MAX,
        ensures
            is_identity(&m, size as nat),
    {
        let mut m = Self::filled(size, size, 0);
        let mut k: usize = 0;
        while k < size
            invariant
                m.wf(),
                m.rows == size,
                m.cols == size,
                k <= size,
                forall|i: int, j: int|
                    0 <= i < size && 0 <= j < size ==> #[trigger] m@[i][j] == if i == j && i < k {
                        1i64
                    } else {
                        0i64
                    },
            decreases size - k,
        {
            let _ = m.set(k, k, 1);
            k += 1;
        }
        m
    }

    /// Entrywise sum; fails unless both matrices have the same shape.
    pub fn add(self, rhs: Self) -> (r: Result<Self, MathError>)
        requires
            self.wf(),
            rhs.wf(),
            same_shape(&self, &rhs) ==> addition_fits(&self, &rhs),
        ensures
            match r {
                Ok(m) => {
                    &&& same_shape(&self, &rhs)
                    &&& m.wf()
                    &&& same_shape(&m, &self)
                    &&& forall|i: int, j: int|
                        0 <= i < m.rows && 0 <= j < m.cols ==> #[trigger] m@[i][j] == self@[i][j]
                            + rhs@[i][j]
                },
                Err(e) => !same_shape(&self, &rhs) && e == MathError::DimensionMismatch,
            },
    {
        if self.rows != rhs.rows || self.cols != rhs.cols {
            return Err(MathError::DimensionMismatch);
        }
        Ok(
            self.combine(&rhs, plus),
        )
    }

    /// Entrywise difference; fails unless both matrices have the same shape.
    pub fn sub(self, rhs: Self) -> (r: Result<Self, MathError>)
        requires
            self.wf(),
            rhs.wf(),
            same_shape(&self, &rhs) ==> subtraction_fits(&self, &rhs),
        ensures
            match r {
                Ok(m) => {
                    &&& same_shape(&self, &rhs)
                    &&& m.wf()
                    &&& same_shape(&m, &self)
                    &&& forall|i: int, j: int|
                        0 <= i < m.rows && 0 <= j < m.cols ==> #[trigger] m@[i][j] == self@[i][j]
                            - rhs@[i][j]
                },
                Err(e) => !same_shape(&self, &rhs) && e == MathError::DimensionMismatch,
            },
    {
        if self.rows != rhs.rows || self.cols != rhs.cols {
            return Err(MathError::DimensionMismatch);
        }
        Ok(
            self.combine(&rhs, minus),
        )
    }

    /// Entrywise (Hadamard) product; fails unless both matrices have the
    /// same shape.
    pub fn hadamard_product(&self, other: &Self) -> (r: Result<Self, MathError>)
        requires
            self.wf(),
            other.wf(),
            same_shape(self, other) ==> hadamard_fits(self, other),
        ensures
            match r {
                Ok(m) => {
                    &&& same_shape(self, other)
                    &&& m.wf()
                    &&& same_shape(&m, self)
                    &&& forall|i: int, j: int|
                        0 <= i < m.rows && 0 <= j < m.cols ==> #[trigger] m@[i][j] == self@[i][j]
                            * other@[i][j]
                },
                Err(e) => !same_shape(self, other) && e == MathError::DimensionMismatch,
            },
    {
        if self.rows != other.rows || self.cols != other.cols {
            return Err(MathError::DimensionMismatch);
        }
        Ok(
            self.combine(other, times),
        )
    }

    /// Every entry multiplied by `scalar`.
    pub fn scalar_multiply(&self, scalar: i64) -> (m: Self)
        requires
            self.wf(),
            scaled_fits(self, scalar),
        ensures
            m.wf(),
            same_shape(&m, self),
            forall|i: int, j: int|
                0 <= i < m.rows && 0 <= j < m.cols ==> #[trigger] m@[i][j] == self@[i][j] * scalar,
    {
        let scale = |a: i64, b: i64| -> (c: i64)
            requires
                fits(a * scalar),
            ensures
                c == a * scalar,
            { a * scalar };
        // The second operand is ignored: each cell depends on `self` alone.
        self.combine(self, scale)
    }

    /// Frobenius inner product: the sum of the products of corresponding
    /// entries, accumulated in row-major order; fails unless both matrices
    /// have the same shape.
    pub fn dot(&self, other: &Self) -> (r: Result<i64, MathError>)
        requires
            self.wf(),
            other.wf(),
            same_shape(self, other) ==> dot_fits(self.data@, other.data@),
        ensures
            match r {
                Ok(d) => same_shape(self, other) && d == dot_sum(
                    self.data@,
                    other.data@,
                    self.data@.len() as int,
                ),
                Err(e) => !same_shape(self, other) && e == MathError::DimensionMismatch,
            },
    {
        if self.rows != other.rows || self.cols != other.cols {
            return Err(MathError::DimensionMismatch);
        }
        Ok(sum_of_products(&self.data, &other.data))
    }

    /// Sum of the diagonal; fails unless the matrix is square.
    pub fn trace(&self) -> (r: Result<i64, MathError>)
        requires
            self.wf(),
            self.rows == self.cols ==> trace_fits(self@),
        ensures
            match r {
                Ok(t) => self.rows == self.cols && t == diag_sum(self@, self.rows as int),
                Err(e) => self.rows != self.cols && e == MathError::DimensionMismatch,
            },
    {
        if self.rows != self.cols {
            return Err(MathError::DimensionMismatch);
        }
        let mut acc: i64 = 0;
        let mut k: usize = 0;
        while k < self.rows
            invariant
                self.wf(),
                self.rows == self.cols,
                trace_fits(self@),
                k <= self.rows,
                acc == diag_sum(self@, k as int),
            decreases self.rows - k,
        {
            assert(fits(diag_sum(self@, k + 1)));
            acc = acc + self.entry(k, k);
            k += 1;
        }
        Ok(acc)
    }
}

/// The rows of `a` in order, each as its entries separated by `", "` and
/// ended by a newline.
pub open spec fn matrix_text(a: Seq<Seq<i64>>) -> Seq<char>
    decreases a.len(),
{
    if a.len() == 0 {
        Seq::empty()
    } else {
        matrix_text(a.drop_last()) + joined(a.last()) + seq!['\n']
    }
}

impl Matrix<i64> {
    /// One line per row, entries in decimal separated by `", "`, each line
    /// ended by a newline.
    pub fn to_string(&self) -> (r: String)
        requires
            self.wf(),
        ensures
            r@ == matrix_text(self@),
    {
        proof {
            reveal_strlit("");
            reveal_strlit("\n");
        }
        let mut out = String::from_str("");
        let mut i: usize = 0;
        while i < self.rows
            invariant
                self.wf(),
                i <= self.rows,
                out@ == matrix_text(self@.take(i as int)),
            decreases self.rows - i,
        {
            let row = self.row_of(i);
            let ghost before = out@;
            push_joined(&mut out, &row.data);
            out.append("\n");
            proof {
                reveal_strlit("\n");
                assert("\n"@ =~= seq!['\n']);
                assert(out@ == before + joined(row@) + seq!['\n']);
                assert(self@.take(i + 1).drop_last() =~= self@.take(i as int));
                assert(self@.take(i + 1).last() == row@);
                assert(out@ =~= matrix_text(self@.take(i + 1)));
            }
            i += 1;
        }
        proof {
            assert(self@.take(i as int) =~= self@);
        }
        out
    }
}

/// `t` is the transpose of `m`.
pub open spec fn is_transpose<T>(m: &Matrix<T>, t: &Matrix<T>) -> bool {
    &&& t.wf()
    &&& t.rows == m.cols
    &&& t.cols == m.rows
    &&& forall|i: int, j: int| 0 <= i < m.cols && 0 <= j < m.rows ==> #[trigger] t@[i][j] == m@[j][i]
}

/// `id` is the `n x n` identity matrix.
pub open spec fn is_identity(id: &Matrix<i64>, n: nat) -> bool {
    &&& id.wf()
    &&& id.rows == n
    &&& id.cols == n
    &&& forall|i: int, j: int|
        0 <= i < n && 0 <= j < n ==> #[trigger] id@[i][j] == if i == j {
            1i64
        } else {
            0i64
        }
}

/// Two well-formed matrices with the same shape and rows hold the same
/// buffer.
pub proof fn lemma_same_matrix<T>(a: &Matrix<T>, b: &Matrix<T>)
    requires
        a.wf(),
        b.wf(),
        a.same(b),
    ensures
        a.data@ == b.data@,
{
    lemma_grid_determines_data(a.data@, b.data@, a.rows as nat, a.cols as nat);
}

/// Against an identity matrix, the first `k` terms of a product cell keep
/// only the entry on the diagonal, if it lies among them.
proof fn lemma_dot_prefix_identity(m: &Matrix<i64>, id: &Matrix<i64>, i: int, j: int, k: int)
    requires
        m.wf(),
        is_identity(id, m.cols as nat),
        0 <= i < m.rows,
        0 <= j < m.cols,
        0 <= k <= m.cols,
    ensures
        dot_prefix(m@, id@, i, j, k) == if j < k {
            m@[i][j] as int
        } else {
            0
        },
    decreases k,
{
    if k > 0 {
        lemma_dot_prefix_identity(m, id, i, j, k - 1);
        assert(id@[k - 1][j] == if k - 1 == j {
            1i64
        } else {
            0i64
        });
    }
}

/// Multiplying a matrix on the right by the identity of its width gives the
/// matrix back: every step of that product fits in `i64`, and any product of
/// `m` by that identity has the shape, rows and buffer of `m`.
pub proof fn lemma_mul_identity(m: &Matrix<i64>, id: &Matrix<i64>, p: &Matrix<i64>)
    requires
        m.wf(),
        is_identity(id, m.cols as nat),
    ensures
        m.cols == id.rows,
        product_fits(m, id),
        is_product(m, id, p) ==> p.same(m) && p.data@ == m.data@,
{
    assert forall|i: int, j: int, k: int|
        0 <= i < m.rows && 0 <= j < id.cols && 0 <= k < m.cols implies #[trigger] product_step_fits(
        m@,
        id@,
        i,
        j,
        k,
    ) by {
        lemma_dot_prefix_identity(m, id, i, j, k + 1);
        assert(id@[k][j] == if k == j {
            1i64
        } else {
            0i64
        });
        let e = id@[k][j] as int;
        let x = m@[i][k] as int;
        if k == j {
            assert(e == 1);
            assert(x * e == x) by (nonlinear_arith)
                requires
                    e == 1,
            ;
        } else {
            assert(e == 0);
            assert(x * e == 0) by (nonlinear_arith)
                requires
                    e == 0,
            ;
        }
        assert(fits(m@[i][j] as int));
    }
    if is_product(m, id, p) {
        assert forall|i: int| 0 <= i < m.rows implies #[trigger] p@[i] =~= m@[i] by {
            assert forall|j: int| 0 <= j < m.cols implies p@[i][j] == m@[i][j] by {
                lemma_dot_prefix_identity(m, id, i, j, m.cols as int);
            }
        }
        assert(p@ =~= m@);
        lemma_same_matrix(p, m);
    }
}

/// Transposing twice gives the original matrix back.
pub proof fn lemma_transpose_involution<T>(m: &Matrix<T>, t: &Matrix<T>, u: &Matrix<T>)
    requires
        m.wf(),
        is_transpose(m, t),
        is_transpose(t, u),
    ensures
        u.same(m),
        u.data@ == m.data@,
{
    assert forall|i: int| 0 <= i < m.rows implies #[trigger] u@[i] =~= m@[i] by {
        assert forall|j: int| 0 <= j < m.cols implies u@[i][j] == m@[i][j] by {
            assert(u@[i][j] == t@[j][i]);
        }
    }
    assert(u@ =~= m@);
    lemma_same_matrix(u, m);
}

/// The rows of a matrix with at least one row, taken in order, are accepted
/// by `from_rows`, and any matrix that `from_rows` builds from them is the
/// original one.
pub proof fn lemma_rows_round_trip<T>(m: &Matrix<T>, rows: Seq<Vector<T>>, r: &Matrix<T>)
    requires
        m.wf(),
        m.rows > 0,
        rows.len() == m.rows,
        forall|i: int| 0 <= i < m.rows ==> (#[trigger] rows[i])@ == m@[i],
    ensures
        rectangular(rows),
        rows.len() * rows[0]@.len() <= usize::MAX,
        r.wf() && r.rows == rows.len() && r.cols == rows[0]@.len() && r@ == rows.map_values(
            |v: Vector<T>| v@,
        ) ==> r.same(m) && r.data@ == m.data@,
{
    assert(rows[0]@ == m@[0]);
    if r.wf() && r.rows == rows.len() && r.cols == rows[0]@.len() && r@ == rows.map_values(
        |v: Vector<T>| v@,
    ) {
        assert forall|i: int| 0 <= i < m.rows implies #[trigger] r@[i] == m@[i] by {
            assert(r@[i] == rows.map_values(|v: Vector<T>| v@)[i]);
        }
        assert(r@ =~= m@);
        lemma_same_matrix(r, m);
    }
}

/// A `1 x 1` determinant is its entry; a `2 x 2` determinant of rows
/// `[a, b]` and `[c, d]` is `a * d - b * c`.
pub proof fn lemma_det_small(a: Seq<Seq<i64>>)
    ensures
        a.len() == 1 ==> det(a) == a[0][0],
        a.len() == 2 ==> det(a) == a[0][0] * a[1][1] - a[0][1] * a[1][0],
{
}

} // verus!

//! Trace matrices: one row of power samples per execution window, all rows
//! of one width.

use vstd::prelude::*;

verus! {

/// A rectangular matrix of power samples, held in an `ndarray` array.
#[verifier::external_body]
pub struct TraceMatrix {
    cells: ndarray::Array2<u64>,
}

/// The rows of a matrix, each with its cells in column order.
pub uninterp spec fn matrix_rows(m: TraceMatrix) -> Seq<Seq<u64>>;

/// The number of columns of a matrix.
pub uninterp spec fn matrix_width(m: TraceMatrix) -> nat;

impl View for TraceMatrix {
    type V = Seq<Seq<u64>>;

    open spec fn view(&self) -> Seq<Seq<u64>> {
        matrix_rows(*self)
    }
}

/// Whether a matrix of `rows` by `cols` samples can be held: the number of
/// its bytes, and the length of its axes, stay within what a signed machine
/// word counts.
pub open spec fn shape_fits(rows: nat, cols: nat) -> bool {
    if rows == 0 {
        cols <= isize::MAX
    } else if cols == 0 {
        rows <= isize::MAX
    } else {
        8 * (rows * cols) <= isize::MAX
    }
}

/// A matrix of `rows` rows of `cols` zeros.
pub open spec fn zero_rows(rows: nat, cols: nat) -> Seq<Seq<u64>> {
    Seq::new(rows, |i: int| Seq::new(cols, |j: int| 0u64))
}

/// A row brought to `width` cells: cut off on the right where it is longer,
/// filled with zeros on the right where it is shorter.
pub open spec fn fitted(row: Seq<u64>, width: nat) -> Seq<u64> {
    Seq::new(
        width,
        |j: int|
            if j < row.len() {
                row[j]
            } else {
                0u64
            },
    )
}

/// Decides whether a matrix of `rows` by `cols` samples can be held.
pub fn check_shape(rows: usize, cols: usize) -> (ok: bool)
    ensures
        ok == shape_fits(rows as nat, cols as nat),
{
    let limit: usize = usize::MAX / 2;
    assert(limit == isize::MAX);
    if rows == 0 {
        cols <= limit
    } else if cols == 0 {
        rows <= limit
    } else {
        let most: usize = limit / 8 / rows;
        proof {
            let bound = (limit / 8) as int;
            assert(8 * (rows * cols) <= isize::MAX <==> rows * cols <= bound);
            assert(rows * cols <= bound <==> cols <= bound / (rows as int)) by (nonlinear_arith)
                requires
                    rows > 0,
                    cols >= 0,
                    bound >= 0,
            ;
        }
        cols <= most
    }
}

impl TraceMatrix {
    /// The number of columns.
    pub open spec fn width(&self) -> nat {
        matrix_width(*self)
    }

    /// Every row has as many cells as the matrix has columns.
    pub open spec fn rectangular(&self) -> bool {
        forall|i: int| 0 <= i < self@.len() ==> (#[trigger] self@[i]).len() == self.width()
    }

    /// `ndarray::Array2::zeros` on the shape `(rows, cols)`: an array of that
    /// shape whose cells are all zero.  The shape must fit, else the call
    /// panics.
    #[verifier::external_body]
    pub(crate) fn raw_zeros(rows: usize, cols: usize) -> (m: TraceMatrix)
        requires
            shape_fits(rows as nat, cols as nat),
        ensures
            matrix_width(m) == cols,
            matrix_rows(m) == zero_rows(rows as nat, cols as nat),
    {
        TraceMatrix { cells: ndarray::Array2::zeros((rows, cols)) }
    }

    /// `ndarray::ArrayBase::dim` of a two-dimensional array: the number of
    /// rows and the number of columns.  Every row of an array has that number
    /// of columns.
    #[verifier::external_body]
    fn raw_dim(&self) -> (d: (usize, usize))
        ensures
            d.0 == matrix_rows(*self).len(),
            d.1 == matrix_width(*self),
            forall|i: int| 0 <= i < d.0 ==> (#[trigger] matrix_rows(*self)[i]).len() == d.1,
    {
        self.cells.dim()
    }

    /// Indexing of an `ndarray` array by `[row, col]`: the cell at that
    /// place.  The place must lie within the array, else the call panics.
    #[verifier::external_body]
    fn raw_get(&self, row: usize, col: usize) -> (v: u64)
        requires
            row < matrix_rows(*self).len(),
            col < matrix_width(*self),
        ensures
            v == matrix_rows(*self)[row as int][col as int],
    {
        self.cells[[row, col]]
    }

    /// Mutable indexing of an `ndarray` array by `[row, col]`: the cell at
    /// that place takes the value, and nothing else changes.  The place must
    /// lie within the array, else the call panics.
    #[verifier::external_body]
    fn raw_set(&mut self, row: usize, col: usize, value: u64)
        requires
            row < matrix_rows(*old(self)).len(),
            col < matrix_width(*old(self)),
        ensures
            matrix_width(*final(self)) == matrix_width(*old(self)),
            matrix_rows(*final(self)) == matrix_rows(*old(self)).update(
                row as int,
                matrix_rows(*old(self))[row as int].update(col as int, value),
            ),
    {
        self.cells[[row, col]] = value;
    }

    /// A matrix of `rows` by `cols` zeros, where a matrix of that shape can
    /// be held.
    pub fn zeros(rows: usize, cols: usize) -> (r: Option<TraceMatrix>)
        ensures
            match r {
                Some(m) => shape_fits(rows as nat, cols as nat) && m.width() == cols && m@
                    == zero_rows(rows as nat, cols as nat) && m.rectangular(),
                None => !shape_fits(rows as nat, cols as nat),
            },
    {
        if check_shape(rows, cols) {
            Some(TraceMatrix::raw_zeros(rows, cols))
        } else {
            None
        }
    }

    /// The number of rows.
    pub fn nrows(&self) -> (n: usize)
        ensures
            n == self@.len(),
            self.rectangular(),
    {
        self.raw_dim().0
    }

    /// The number of columns.
    pub fn ncols(&self) -> (n: usize)
        ensures
            n == self.width(),
            self.rectangular(),
    {
        self.raw_dim().1
    }

    /// The cell at `row` and `col`, if the matrix has one there.
    pub fn get(&self, row: usize, col: usize) -> (r: Option<u64>)
        ensures
            self.rectangular(),
            match r {
                Some(v) => row < self@.len() && col < self.width() && v == self@[row as int][col as int],
                None => row >= self@.len() || col >= self.width(),
            },
    {
        let (rows, cols) = self.raw_dim();
        if row < rows && col < cols {
            Some(self.raw_get(row, col))
        } else {
            None
        }
    }

    /// Writes `value` into the cell at `row` and `col`.
    pub fn set(&mut self, row: usize, col: usize, value: u64)
        requires
            row < old(self)@.len(),
            col < old(self).width(),
        ensures
            final(self).width() == old(self).width(),
            final(self)@ == old(self)@.update(
                row as int,
                old(self)@[row as int].update(col as int, value),
            ),
    {
        self.raw_set(row, col, value);
    }

    /// The first `count` cells of a row.
    pub fn row_prefix(&self, row: usize, count: usize) -> (cells: Vec<u64>)
        requires
            row < self@.len(),
            count <= self.width(),
        ensures
            self.rectangular(),
            cells@ == self@[row as int].take(count as int),
    {
        let (_, w) = self.raw_dim();
        let mut cells: Vec<u64> = Vec::new();
        let mut j: usize = 0;
        while j < count
            invariant
                j <= count <= w,
                row < self@.len(),
                w == self.width(),
                self@[row as int].len() == w,
                cells@.len() == j,
                forall|k: int| 0 <= k < j ==> cells@[k] == self@[row as int][k],
            decreases count - j,
        {
            cells.push(self.raw_get(row, j));
            j = j + 1;
        }
        proof {
            assert(cells@ =~= self@[row as int].take(count as int));
        }
        cells
    }

    /// Writes `cells` into the first cells of a row.  The cells behind them,
    /// and the other rows, stay as they are.
    pub fn write_row(&mut self, row: usize, cells: &[u64])
        requires
            row < old(self)@.len(),
            cells@.len() <= old(self).width(),
        ensures
            final(self).width() == old(self).width(),
            final(self)@.len() == old(self)@.len(),
            final(self).rectangular(),
            forall|k: int|
                0 <= k < old(self)@.len() && k != row ==> #[trigger] final(self)@[k] == old(self)@[k],
            final(self)@[row as int] == cells@ + old(self)@[row as int].skip(cells@.len() as int),
    {
        let (n, w) = self.raw_dim();
        let ghost before = self@;
        let mut j: usize = 0;
        while j < cells.len()
            invariant
                j <= cells@.len() <= w,
                row < n,
                n == before.len(),
                w == self.width(),
                self@.len() == n,
                self.rectangular(),
                before[row as int].len() == w,
                forall|k: int| 0 <= k < n && k != row ==> #[trigger] self@[k] == before[k],
                forall|c: int| 0 <= c < j ==> self@[row as int][c] == cells@[c],
                forall|c: int| j <= c < w ==> self@[row as int][c] == before[row as int][c],
            decreases cells@.len() - j,
        {
            self.raw_set(row, j, cells[j]);
            j = j + 1;
        }
        proof {
            assert(self@[row as int] =~= cells@ + before[row as int].skip(cells@.len() as int));
        }
    }

    /// The matrix as a vector of rows.
    pub fn to_rows(&self) -> (rows: Vec<Vec<u64>>)
        ensures
            self.rectangular(),
            rows@.len() == self@.len(),
            forall|i: int| 0 <= i < rows@.len() ==> (#[trigger] rows@[i])@ == self@[i],
    {
        let (n, w) = self.raw_dim();
        let mut rows: Vec<Vec<u64>> = Vec::new();
        let mut i: usize = 0;
        while i < n
            invariant
                i <= n,
                n == self@.len(),
                w == self.width(),
                self.rectangular(),
                rows@.len() == i,
                forall|k: int| 0 <= k < i ==> (#[trigger] rows@[k])@ == self@[k],
            decreases n - i,
        {
            let row: Vec<u64> = self.row_prefix(i, w);
            proof {
                assert(row@ =~= self@[i as int]);
            }
            rows.push(row);
            i = i + 1;
        }
        rows
    }

    /// The matrix whose rows are `rows`, where every one of them has `width`
    /// cells and a matrix of that shape can be held.
    pub fn from_rows(rows: &[Vec<u64>], width: usize) -> (r: Option<TraceMatrix>)
        ensures
            match r {
                Some(m) => {
                    &&& shape_fits(rows@.len(), width as nat)
                    &&& forall|i: int| 0 <= i < rows@.len() ==> (#[trigger] rows@[i])@.len() == width
                    &&& m.width() == width
                    &&& m.rectangular()
                    &&& m@.len() == rows@.len()
                    &&& forall|i: int| 0 <= i < rows@.len() ==> m@[i] == (#[trigger] rows@[i])@
                },
                None => !shape_fits(rows@.len(), width as nat) || exists|i: int|
                    0 <= i < rows@.len() && (#[trigger] rows@[i])@.len() != width,
            },
    {
        let n: usize = rows.len();
        if !check_shape(n, width) {
            return None;
        }
        let mut m = TraceMatrix::raw_zeros(n, width);
        let mut i: usize = 0;
        while i < n
            invariant
                i <= n,
                n == rows@.len(),
                m.width() == width,
                m@.len() == n,
                m.rectangular(),
                forall|k: int| 0 <= k < i ==> (#[trigger] rows@[k])@.len() == width,
                forall|k: int| 0 <= k < i ==> m@[k] == (#[trigger] rows@[k])@,
            decreases n - i,
        {
            let row = &rows[i];
            if row.len() != width {
                return None;
            }
            m.write_row(i, row.as_slice());
            proof {
                assert(m@[i as int] =~= row@);
            }
            i = i + 1;
        }
        Some(m)
    }

    /// The matrix whose rows are the traces, all of which must be as long as
    /// the first.  There must be a trace, and a matrix of that shape must be
    /// such as can be held.
    pub fn from_traces(traces: &[Vec<u64>]) -> (r: Option<TraceMatrix>)
        ensures
            match r {
                Some(m) => {
                    &&& traces@.len() > 0
                    &&& shape_fits(traces@.len(), traces@[0]@.len())
                    &&& forall|i: int|
                        0 <= i < traces@.len() ==> (#[trigger] traces@[i])@.len() == traces@[0]@.len()
                    &&& m.width() == traces@[0]@.len()
                    &&& m.rectangular()
                    &&& m@.len() == traces@.len()
                    &&& forall|i: int| 0 <= i < traces@.len() ==> m@[i] == (#[trigger] traces@[i])@
                },
                None => traces@.len() == 0 || !shape_fits(traces@.len(), traces@[0]@.len())
                    || exists|i: int|
                    0 <= i < traces@.len() && (#[trigger] traces@[i])@.len() != traces@[0]@.len(),
            },
    {
        if traces.len() == 0 {
            return None;
        }
        TraceMatrix::from_rows(traces, traces[0].len())
    }

    /// The matrix brought to `width` columns, where a matrix of that shape
    /// can be held: every row is cut off on the right where the matrix is
    /// wider, and filled with zeros on the right where it is narrower.
    pub fn reconcile_width(&self, width: usize) -> (r: Option<TraceMatrix>)
        ensures
            self.rectangular(),
            match r {
                Some(m) => {
                    &&& shape_fits(self@.len(), width as nat)
                    &&& m.width() == width
                    &&& m.rectangular()
                    &&& m@.len() == self@.len()
                    &&& forall|i: int|
                        0 <= i < self@.len() ==> #[trigger] m@[i] == fitted(self@[i], width as nat)
                },
                None => !shape_fits(self@.len(), width as nat),
            },
    {
        let (n, w) = self.raw_dim();
        if !check_shape(n, width) {
            return None;
        }
        let copied: usize = if w <= width {
            w
        } else {
            width
        };
        let mut m = TraceMatrix::raw_zeros(n, width);
        let mut i: usize = 0;
        while i < n
            invariant
                i <= n == self@.len(),
                w == self.width(),
                self.rectangular(),
                copied <= w,
                copied <= width,
                copied == w || copied == width,
                m.width() == width,
                m@.len() == n,
                m.rectangular(),
                forall|k: int| 0 <= k < i ==> #[trigger] m@[k] == fitted(self@[k], width as nat),
                forall|k: int, c: int| i <= k < n && 0 <= c < width ==> #[trigger] m@[k][c] == 0,
            decreases n - i,
        {
            let cells: Vec<u64> = self.row_prefix(i, copied);
            m.write_row(i, cells.as_slice());
            proof {
                assert(m@[i as int] =~= fitted(self@[i as int], width as nat));
            }
            i = i + 1;
        }
        Some(m)
    }
}

/// A row that is brought to a greater width keeps its cells and has zeros
/// behind them; one that is brought to a smaller width keeps its first
/// cells; one that has the width stays as it is.
pub proof fn lemma_fitted_pads_and_truncates(row: Seq<u64>, width: nat)
    ensures
        fitted(row, width).len() == width,
        row.len() <= width ==> fitted(row, width) == row + Seq::new(
            (width - row.len()) as nat,
            |j: int| 0u64,
        ),
        row.len() >= width ==> fitted(row, width) == row.take(width as int),
        row.len() == width ==> fitted(row, width) == row,
{
    if row.len() <= width {
        assert(fitted(row, width) =~= row + Seq::new((width - row.len()) as nat, |j: int| 0u64));
    }
    if row.len() >= width {
        assert(fitted(row, width) =~= row.take(width as int));
    }
    if row.len() == width {
        assert(fitted(row, width) =~= row);
    }
}

} // verus!

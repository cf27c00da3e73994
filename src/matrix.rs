//! Fixed-size integer matrices, stored row by row.
use vstd::prelude::*;
use crate::size::Size;

verus! {

/// `i * c + j` lies inside an `r` by `c` row-major buffer.
pub proof fn lemma_index_in_bounds(i: int, j: int, r: int, c: int)
    requires
        0 <= i < r,
        0 <= j < c,
    ensures
        0 <= i * c + j < r * c,
        0 <= i * c,
{
    assert(0 <= i * c + j < r * c) by (nonlinear_arith)
        requires
            0 <= i < r,
            0 <= j < c,
    ;
    assert(0 <= i * c) by (nonlinear_arith)
        requires
            0 <= i,
            0 <= c,
    ;
}

/// Distinct cells have distinct indices.
pub proof fn lemma_index_distinct(i1: int, j1: int, i2: int, j2: int, c: int)
    requires
        0 <= j1 < c,
        0 <= j2 < c,
        0 <= i1,
        0 <= i2,
        i1 != i2 || j1 != j2,
    ensures
        i1 * c + j1 != i2 * c + j2,
{
    if i1 == i2 {
    } else if i1 < i2 {
        assert(i1 * c + j1 < i2 * c + j2) by (nonlinear_arith)
            requires
                0 <= j1 < c,
                0 <= j2,
                i1 < i2,
        ;
    } else {
        assert(i2 * c + j2 < i1 * c + j1) by (nonlinear_arith)
            requires
                0 <= j2 < c,
                0 <= j1,
                i2 < i1,
        ;
    }
}

/// A matrix with `R` rows and `C` columns of `i64` entries.
#[derive(Debug)]
pub struct RectMatrix<const R: usize, const C: usize> {
    data: Vec<i64>,
}

/// A matrix with a single row.
pub type RowVector<const L: usize> = RectMatrix<1, L>;

/// A matrix with a single column.
pub type ColVector<const L: usize> = RectMatrix<L, 1>;

impl<const R: usize, const C: usize> RectMatrix<R, C> {
    /// The storage holds exactly `R * C` entries.
    pub closed spec fn wf(&self) -> bool {
        self.data@.len() == (R as int) * (C as int)
    }

    /// The entry in row `i` and column `j`.
    pub closed spec fn entry(&self, i: int, j: int) -> i64 {
        self.data@[i * (C as int) + j]
    }

    /// The entries, row after row.
    pub closed spec fn storage(&self) -> Seq<i64> {
        self.data@
    }

    /// For well-formed matrices, equal storage means equal entries.
    pub proof fn lemma_storage_entries(a: &Self, b: &Self)
        requires
            a.wf(),
            b.wf(),
        ensures
            (a.storage() == b.storage()) == a.same_entries(b),
    {
        if a.same_entries(b) {
            assert forall|k: int| 0 <= k < a.data@.len() implies a.data@[k] == b.data@[k] by {
                let i = k / (C as int);
                let j = k % (C as int);
                assert(C > 0) by (nonlinear_arith)
                    requires
                        0 <= k < (R as int) * (C as int),
                        R >= 0,
                ;
                assert(k == i * (C as int) + j && 0 <= j < C) by (nonlinear_arith)
                    requires
                        C > 0,
                        i == k / (C as int),
                        j == k % (C as int),
                ;
                assert(0 <= i < R) by (nonlinear_arith)
                    requires
                        C > 0,
                        0 <= k < (R as int) * (C as int),
                        i == k / (C as int),
                ;
                assert(a.entry(i, j) == b.entry(i, j));
            }
            assert(a.data@ =~= b.data@);
        }
    }

    /// Whether the two matrices hold the same storage.
    pub fn same_storage(&self, o: &Self) -> (r: bool)
        ensures
            r == (self.storage() == o.storage()),
    {
        if self.data.len() != o.data.len() {
            return false;
        }
        let n = self.data.len();
        let mut k: usize = 0;
        while k < n
            invariant
                k <= n,
                n == self.data@.len(),
                n == o.data@.len(),
                forall|t: int| 0 <= t < k ==> self.data@[t] == o.data@[t],
            decreases n - k,
        {
            if self.data[k] != o.data[k] {
                return false;
            }
            k = k + 1;
        }
        assert(self.data@ =~= o.data@);
        true
    }

    /// Two matrices hold the same entries.
    pub open spec fn same_entries(&self, o: &RectMatrix<R, C>) -> bool {
        forall|i: int, j: int| 0 <= i < R && 0 <= j < C ==> #[trigger] self.entry(i, j) == o.entry(i, j)
    }

    /// A matrix filled with zeros.
    pub fn zeros() -> (r: Self)
        requires
            R * C <= usize::MAX,
        ensures
            r.wf(),
            forall|i: int, j: int| 0 <= i < R && 0 <= j < C ==> #[trigger] r.entry(i, j) == 0,
    {
        let n: usize = R * C;
        let mut data: Vec<i64> = Vec::new();
        let mut k: usize = 0;
        while k < n
            invariant
                k <= n,
                n == R * C,
                data@.len() == k,
                forall|t: int| 0 <= t < k ==> data@[t] == 0,
            decreases n - k,
        {
            data.push(0);
            k = k + 1;
        }
        let r = RectMatrix { data };
        proof {
            assert forall|i: int, j: int| 0 <= i < R && 0 <= j < C implies #[trigger] r.entry(i, j) == 0 by {
                lemma_index_in_bounds(i, j, R as int, C as int);
            }
        }
        r
    }

    /// A matrix with the given rows.
    pub fn mat_from_vec(data: &Vec<Vec<i64>>) -> (r: Self)
        requires
            R * C <= usize::MAX,
            data@.len() == R,
            forall|i: int| 0 <= i < R ==> (#[trigger] data@[i])@.len() == C,
        ensures
            r.wf(),
            forall|i: int, j: int| 0 <= i < R && 0 <= j < C ==> #[trigger] r.entry(i, j) == data@[i]@[j],
    {
        let mut r = Self::zeros();
        let mut i: usize = 0;
        while i < R
            invariant
                i <= R,
                r.wf(),
                data@.len() == R,
                forall|t: int| 0 <= t < R ==> (#[trigger] data@[t])@.len() == C,
                forall|t: int, j: int| 0 <= t < i && 0 <= j < C ==> #[trigger] r.entry(t, j) == data@[t]@[j],
            decreases R - i,
        {
            let mut j: usize = 0;
            while j < C
                invariant
                    i < R,
                    j <= C,
                    r.wf(),
                    data@.len() == R,
                    forall|t: int| 0 <= t < R ==> (#[trigger] data@[t])@.len() == C,
                    forall|t: int, s: int| 0 <= t < i && 0 <= s < C ==> #[trigger] r.entry(t, s) == data@[t]@[s],
                    forall|s: int| 0 <= s < j ==> #[trigger] r.entry(i as int, s) == data@[i as int]@[s],
                decreases C - j,
            {
                r.set_value(i, j, data[i][j]);
                j = j + 1;
            }
            i = i + 1;
        }
        r
    }

    /// The entry in row `row` and column `col`.
    pub fn value(&self, row: usize, col: usize) -> (r: i64)
        requires
            self.wf(),
            row < R,
            col < C,
        ensures
            r == self.entry(row as int, col as int),
    {
        let _n = self.data.len();
        proof {
            lemma_index_in_bounds(row as int, col as int, R as int, C as int);
        }
        self.data[row * C + col]
    }

    /// Sets the entry in row `row` and column `col`.
    pub fn set_value(&mut self, row: usize, col: usize, value: i64)
        requires
            old(self).wf(),
            row < R,
            col < C,
        ensures
            final(self).wf(),
            final(self).entry(row as int, col as int) == value,
            forall|i: int, j: int|
                0 <= i < R && 0 <= j < C && (i != row || j != col) ==> #[trigger] final(self).entry(i, j)
                    == old(self).entry(i, j),
    {
        let _n = self.data.len();
        proof {
            lemma_index_in_bounds(row as int, col as int, R as int, C as int);
        }
        let k = row * C + col;
        self.data.set(k, value);
        proof {
            assert forall|i: int, j: int|
                0 <= i < R && 0 <= j < C && (i != row || j != col) implies #[trigger] self.entry(i, j)
                    == old(self).entry(i, j) by {
                lemma_index_distinct(i, j, row as int, col as int, C as int);
                lemma_index_in_bounds(i, j, R as int, C as int);
            }
        }
    }

    /// The number of rows.
    pub fn rows(&self) -> (r: usize)
        ensures
            r == R,
    {
        R
    }

    /// The number of columns.
    pub fn cols(&self) -> (r: usize)
        ensures
            r == C,
    {
        C
    }

    /// The entries of row `i`.
    pub fn row_to_vec(&self, i: usize) -> (r: Vec<i64>)
        requires
            self.wf(),
            i < R,
        ensures
            r@.len() == C,
            forall|j: int| 0 <= j < C ==> r@[j] == self.entry(i as int, j),
    {
        let mut out: Vec<i64> = Vec::new();
        let mut j: usize = 0;
        while j < C
            invariant
                j <= C,
                i < R,
                self.wf(),
                out@.len() == j,
                forall|s: int| 0 <= s < j ==> out@[s] == self.entry(i as int, s),
            decreases C - j,
        {
            out.push(self.value(i, j));
            j = j + 1;
        }
        out
    }

    /// The entries of column `j`.
    pub fn col_to_vec(&self, j: usize) -> (r: Vec<i64>)
        requires
            self.wf(),
            j < C,
        ensures
            r@.len() == R,
            forall|i: int| 0 <= i < R ==> r@[i] == self.entry(i, j as int),
    {
        let mut out: Vec<i64> = Vec::new();
        let mut i: usize = 0;
        while i < R
            invariant
                i <= R,
                j < C,
                self.wf(),
                out@.len() == i,
                forall|s: int| 0 <= s < i ==> out@[s] == self.entry(s, j as int),
            decreases R - i,
        {
            out.push(self.value(i, j));
            i = i + 1;
        }
        out
    }

    /// Row `i` as a row vector.
    pub fn row(&self, i: usize) -> (r: RowVector<C>)
        requires
            self.wf(),
            i < R,
        ensures
            r.wf(),
            forall|j: int| 0 <= j < C ==> #[trigger] r.entry(0, j) == self.entry(i as int, j),
    {
        let v = self.row_to_vec(i);
        RectMatrix::<1, C>::row_from_vec(v.as_slice())
    }

    /// Column `j` as a column vector.
    pub fn col(&self, j: usize) -> (r: ColVector<R>)
        requires
            self.wf(),
            j < C,
        ensures
            r.wf(),
            forall|i: int| 0 <= i < R ==> #[trigger] r.entry(i, 0) == self.entry(i, j as int),
    {
        let v = self.col_to_vec(j);
        RectMatrix::<R, 1>::col_from_vec(v.as_slice())
    }

    /// The largest entry of column `j`.
    pub fn max_col(&self, j: usize) -> (r: i64)
        requires
            self.wf(),
            R >= 1,
            j < C,
        ensures
            exists|i: int| 0 <= i < R && r == self.entry(i, j as int),
            forall|i: int| 0 <= i < R ==> self.entry(i, j as int) <= r,
    {
        let mut max = self.value(0, j);
        let mut i: usize = 1;
        while i < R
            invariant
                1 <= i <= R,
                j < C,
                self.wf(),
                exists|t: int| 0 <= t < i && max == self.entry(t, j as int),
                forall|t: int| 0 <= t < i ==> self.entry(t, j as int) <= max,
            decreases R - i,
        {
            let v = self.value(i, j);
            if max < v {
                max = v;
            }
            i = i + 1;
        }
        max
    }

    /// The block of `R2` rows and `C2` columns whose top-left entry is at
    /// row `top` and column `left`.
    pub fn rect<const R2: usize, const C2: usize>(&self, top: usize, left: usize) -> (r: RectMatrix<R2, C2>)
        requires
            self.wf(),
            top + R2 <= R,
            left + C2 <= C,
            R2 * C2 <= usize::MAX,
        ensures
            r.wf(),
            forall|i: int, j: int|
                0 <= i < R2 && 0 <= j < C2 ==> #[trigger] r.entry(i, j) == self.entry(top + i, left + j),
    {
        let mut m = RectMatrix::<R2, C2>::zeros();
        let mut i: usize = 0;
        while i < R2
            invariant
                i <= R2,
                self.wf(),
                m.wf(),
                top + R2 <= R,
                left + C2 <= C,
                forall|t: int, s: int| 0 <= t < i && 0 <= s < C2 ==> #[trigger] m.entry(t, s) == self.entry(top + t, left + s),
            decreases R2 - i,
        {
            let mut j: usize = 0;
            while j < C2
                invariant
                    i < R2,
                    j <= C2,
                    self.wf(),
                    m.wf(),
                    top + R2 <= R,
                    left + C2 <= C,
                    forall|t: int, s: int| 0 <= t < i && 0 <= s < C2 ==> #[trigger] m.entry(t, s) == self.entry(top + t, left + s),
                    forall|s: int| 0 <= s < j ==> #[trigger] m.entry(i as int, s) == self.entry(top + i, left + s),
                decreases C2 - j,
            {
                let v = self.value(top + i, left + j);
                m.set_value(i, j, v);
                j = j + 1;
            }
            i = i + 1;
        }
        m
    }

    /// The size of the matrix: `C` wide and `R` high.
    pub fn size(&self) -> (r: Size)
        ensures
            r.width == C,
            r.height == R,
    {
        Size { width: C, height: R }
    }

    /// The transposed matrix.
    pub fn transposed(&self) -> (r: RectMatrix<C, R>)
        requires
            self.wf(),
        ensures
            r.wf(),
            forall|i: int, j: int| 0 <= i < C && 0 <= j < R ==> #[trigger] r.entry(i, j) == self.entry(j, i),
    {
        let _n = self.data.len();
        proof {
            assert((C as int) * (R as int) == (R as int) * (C as int)) by (nonlinear_arith);
        }
        let mut m = RectMatrix::<C, R>::zeros();
        let mut i: usize = 0;
        while i < R
            invariant
                i <= R,
                self.wf(),
                m.wf(),
                forall|t: int, s: int| 0 <= t < i && 0 <= s < C ==> #[trigger] m.entry(s, t) == self.entry(t, s),
            decreases R - i,
        {
            let mut j: usize = 0;
            while j < C
                invariant
                    i < R,
                    j <= C,
                    self.wf(),
                    m.wf(),
                    forall|t: int, s: int| 0 <= t < i && 0 <= s < C ==> #[trigger] m.entry(s, t) == self.entry(t, s),
                    forall|s: int| 0 <= s < j ==> #[trigger] m.entry(s, i as int) == self.entry(i as int, s),
                decreases C - j,
            {
                let v = self.value(i, j);
                m.set_value(j, i, v);
                j = j + 1;
            }
            i = i + 1;
        }
        m
    }

    /// Replaces column `col` by the entries of `v`.
    pub fn assign_col(&mut self, col: usize, v: &ColVector<R>)
        requires
            old(self).wf(),
            v.wf(),
            col < C,
        ensures
            final(self).wf(),
            forall|i: int, j: int| 0 <= i < R && 0 <= j < C ==> #[trigger] final(self).entry(i, j)
                == if j == col { v.entry(i, 0) } else { old(self).entry(i, j) },
    {
        let mut i: usize = 0;
        while i < R
            invariant
                i <= R,
                col < C,
                self.wf(),
                v.wf(),
                forall|t: int, j: int| 0 <= t < R && 0 <= j < C ==> #[trigger] self.entry(t, j)
                    == if j == col && t < i { v.entry(t, 0) } else { old(self).entry(t, j) },
            decreases R - i,
        {
            let x = v.value(i, 0);
            self.set_value(i, col, x);
            i = i + 1;
        }
    }

    /// Whether the matrix is square and every entry above the diagonal is zero.
    pub fn is_lower_triangular(&self) -> (r: bool)
        requires
            self.wf(),
        ensures
            r == (R == C && forall|i: int, j: int| 0 <= i < j < C ==> #[trigger] self.entry(i, j) == 0),
    {
        if !self.is_square() {
            return false;
        }
        let mut i: usize = 0;
        while i < R
            invariant
                i <= R,
                R == C,
                self.wf(),
                forall|t: int, s: int| 0 <= t < i && t < s < C ==> #[trigger] self.entry(t, s) == 0,
            decreases R - i,
        {
            let mut j: usize = i + 1;
            while j < C
                invariant
                    i < R,
                    i + 1 <= j <= C,
                    R == C,
                    self.wf(),
                    forall|t: int, s: int| 0 <= t < i && t < s < C ==> #[trigger] self.entry(t, s) == 0,
                    forall|s: int| i < s < j ==> #[trigger] self.entry(i as int, s) == 0,
                decreases C - j,
            {
                if self.value(i, j) != 0 {
                    return false;
                }
                j = j + 1;
            }
            i = i + 1;
        }
        true
    }

    /// Whether the matrix is square and every entry below the diagonal is zero.
    pub fn is_upper_triangular(&self) -> (r: bool)
        requires
            self.wf(),
        ensures
            r == (R == C && forall|i: int, j: int| 0 <= j < i < R ==> #[trigger] self.entry(i, j) == 0),
    {
        if !self.is_square() {
            return false;
        }
        let mut i: usize = 0;
        while i < R
            invariant
                i <= R,
                R == C,
                self.wf(),
                forall|t: int, s: int| 0 <= s < t < i ==> #[trigger] self.entry(t, s) == 0,
            decreases R - i,
        {
            let mut j: usize = 0;
            while j < i
                invariant
                    i < R,
                    j <= i,
                    R == C,
                    self.wf(),
                    forall|t: int, s: int| 0 <= s < t < i ==> #[trigger] self.entry(t, s) == 0,
                    forall|s: int| 0 <= s < j ==> #[trigger] self.entry(i as int, s) == 0,
                decreases i - j,
            {
                if self.value(i, j) != 0 {
                    return false;
                }
                j = j + 1;
            }
            i = i + 1;
        }
        true
    }

    /// Whether the matrix has as many rows as columns.
    pub fn is_square(&self) -> (r: bool)
        ensures
            r == (R == C),
    {
        C == R
    }

    /// Whether the matrix is a single row of at least one entry.
    pub fn is_row(&self) -> (r: bool)
        ensures
            r == (C >= 1 && R == 1),
    {
        C >= 1 && R == 1
    }

    /// Whether the matrix is a single column of at least one entry.
    pub fn is_col(&self) -> (r: bool)
        ensures
            r == (C == 1 && R >= 1),
    {
        C == 1 && R >= 1
    }

    /// Sets every entry to zero.
    pub fn reset(&mut self)
        requires
            old(self).wf(),
        ensures
            final(self).wf(),
            forall|i: int, j: int| 0 <= i < R && 0 <= j < C ==> #[trigger] final(self).entry(i, j) == 0,
    {
        let n = self.data.len();
        let mut k: usize = 0;
        while k < n
            invariant
                k <= n,
                n == self.data@.len(),
                self.wf(),
                forall|t: int| 0 <= t < k ==> self.data@[t] == 0,
            decreases n - k,
        {
            self.data.set(k, 0);
            k = k + 1;
        }
        proof {
            assert forall|i: int, j: int| 0 <= i < R && 0 <= j < C implies #[trigger] self.entry(i, j) == 0 by {
                lemma_index_in_bounds(i, j, R as int, C as int);
            }
        }
    }

    /// The identity matrix; the matrix must be square.
    pub fn identity() -> (r: Self)
        requires
            R == C,
            R * C <= usize::MAX,
        ensures
            r.wf(),
            forall|i: int, j: int| 0 <= i < R && 0 <= j < C ==> #[trigger] r.entry(i, j) == if i == j { 1i64 } else { 0i64 },
    {
        let mut m = Self::zeros();
        let mut i: usize = 0;
        while i < R
            invariant
                i <= R,
                R == C,
                m.wf(),
                forall|t: int, j: int| 0 <= t < R && 0 <= j < C ==> #[trigger] m.entry(t, j) == if t == j && t < i { 1i64 } else { 0i64 },
            decreases R - i,
        {
            m.set_value(i, i, 1);
            i = i + 1;
        }
        m
    }

    /// Whether `self + fac * other` can be computed without overflow.
    pub open spec fn mult_add_fits(&self, other: &RectMatrix<R, C>, fac: i64) -> bool {
        forall|i: int, j: int| 0 <= i < R && 0 <= j < C ==>
            i64::MIN <= #[trigger] self.entry(i, j) + fac * other.entry(i, j) <= i64::MAX
    }

    /// `self + fac * other`, entry by entry.
    pub fn mult_add(&self, other: &RectMatrix<R, C>, fac: i64) -> (r: RectMatrix<R, C>)
        requires
            self.wf(),
            other.wf(),
            self.mult_add_fits(other, fac),
        ensures
            r.wf(),
            forall|i: int, j: int| 0 <= i < R && 0 <= j < C ==> #[trigger] r.entry(i, j)
                == self.entry(i, j) + fac * other.entry(i, j),
    {
        let mut out = self.clone();
        let mut i: usize = 0;
        while i < R
            invariant
                i <= R,
                self.wf(),
                other.wf(),
                out.wf(),
                self.mult_add_fits(other, fac),
                forall|t: int, j: int| 0 <= t < R && 0 <= j < C ==> #[trigger] out.entry(t, j)
                    == if t < i { self.entry(t, j) + fac * other.entry(t, j) } else { self.entry(t, j) as int },
            decreases R - i,
        {
            let mut j: usize = 0;
            while j < C
                invariant
                    i < R,
                    j <= C,
                    self.wf(),
                    other.wf(),
                    out.wf(),
                    self.mult_add_fits(other, fac),
                    forall|t: int, s: int| 0 <= t < R && 0 <= s < C ==> #[trigger] out.entry(t, s)
                        == if t < i || (t == i && s < j) { self.entry(t, s) + fac * other.entry(t, s) } else { self.entry(t, s) as int },
                decreases C - j,
            {
                let a = self.value(i, j);
                let b = other.value(i, j);
                assert(i64::MIN <= self.entry(i as int, j as int) + fac * other.entry(i as int, j as int) <= i64::MAX);
                out.set_value(i, j, ((a as i128) + (fac as i128) * (b as i128)) as i64);
                j = j + 1;
            }
            i = i + 1;
        }
        out
    }

    /// The sum of two matrices, entry by entry.
    pub fn add(&self, other: &RectMatrix<R, C>) -> (r: RectMatrix<R, C>)
        requires
            self.wf(),
            other.wf(),
            self.mult_add_fits(other, 1),
        ensures
            r.wf(),
            forall|i: int, j: int| 0 <= i < R && 0 <= j < C ==> #[trigger] r.entry(i, j)
                == self.entry(i, j) + other.entry(i, j),
    {
        self.mult_add(other, 1)
    }

    /// The difference of two matrices, entry by entry.
    pub fn sub(&self, other: &RectMatrix<R, C>) -> (r: RectMatrix<R, C>)
        requires
            self.wf(),
            other.wf(),
            self.mult_add_fits(other, -1i64),
        ensures
            r.wf(),
            forall|i: int, j: int| 0 <= i < R && 0 <= j < C ==> #[trigger] r.entry(i, j)
                == self.entry(i, j) - other.entry(i, j),
    {
        self.mult_add(other, -1)
    }

    /// Whether every entry times `scalar` fits an `i64`.
    pub open spec fn scale_fits(&self, scalar: int) -> bool {
        forall|i: int, j: int| 0 <= i < R && 0 <= j < C ==>
            i64::MIN <= #[trigger] self.entry(i, j) * scalar <= i64::MAX
    }

    /// The matrix times a scalar, entry by entry.
    pub fn scale(&self, scalar: i64) -> (r: RectMatrix<R, C>)
        requires
            self.wf(),
            self.scale_fits(scalar as int),
        ensures
            r.wf(),
            forall|i: int, j: int| 0 <= i < R && 0 <= j < C ==> #[trigger] r.entry(i, j)
                == self.entry(i, j) * scalar,
    {
        let mut out = self.clone();
        let mut i: usize = 0;
        while i < R
            invariant
                i <= R,
                self.wf(),
                out.wf(),
                self.scale_fits(scalar as int),
                forall|t: int, j: int| 0 <= t < R && 0 <= j < C ==> #[trigger] out.entry(t, j)
                    == if t < i { self.entry(t, j) * scalar } else { self.entry(t, j) as int },
            decreases R - i,
        {
            let mut j: usize = 0;
            while j < C
                invariant
                    i < R,
                    j <= C,
                    self.wf(),
                    out.wf(),
                    self.scale_fits(scalar as int),
                    forall|t: int, s: int| 0 <= t < R && 0 <= s < C ==> #[trigger] out.entry(t, s)
                        == if t < i || (t == i && s < j) { self.entry(t, s) * scalar } else { self.entry(t, s) as int },
                decreases C - j,
            {
                let a = self.value(i, j);
                assert(i64::MIN <= self.entry(i as int, j as int) * scalar <= i64::MAX);
                out.set_value(i, j, a * scalar);
                j = j + 1;
            }
            i = i + 1;
        }
        out
    }

    /// `sum_{p < k} self[i][p] * other[p][j]`.
    pub open spec fn dot<const C2: usize>(&self, other: &RectMatrix<C, C2>, i: int, j: int, k: int) -> int
        decreases k,
    {
        if k <= 0 {
            0
        } else {
            self.dot(other, i, j, k - 1) + self.entry(i, k - 1) * other.entry(k - 1, j)
        }
    }

    /// Whether every partial sum of the matrix product fits an `i64`.
    pub open spec fn mul_fits<const C2: usize>(&self, other: &RectMatrix<C, C2>) -> bool {
        forall|i: int, j: int, k: int| 0 <= i < R && 0 <= j < C2 && 0 <= k <= C ==>
            i64::MIN <= #[trigger] self.dot(other, i, j, k) <= i64::MAX
    }

    /// The matrix product `self * other`.
    pub fn mul_matrix<const C2: usize>(&self, other: &RectMatrix<C, C2>) -> (r: RectMatrix<R, C2>)
        requires
            self.wf(),
            other.wf(),
            R * C2 <= usize::MAX,
            self.mul_fits(other),
        ensures
            r.wf(),
            forall|i: int, j: int| 0 <= i < R && 0 <= j < C2 ==> #[trigger] r.entry(i, j) == self.dot(other, i, j, C as int),
    {
        let mut res = RectMatrix::<R, C2>::zeros();
        let mut i: usize = 0;
        while i < R
            invariant
                i <= R,
                self.wf(),
                other.wf(),
                res.wf(),
                self.mul_fits(other),
                forall|t: int, j: int| 0 <= t < i && 0 <= j < C2 ==> #[trigger] res.entry(t, j) == self.dot(other, t, j, C as int),
            decreases R - i,
        {
            let mut j: usize = 0;
            while j < C2
                invariant
                    i < R,
                    j <= C2,
                    self.wf(),
                    other.wf(),
                    res.wf(),
                    self.mul_fits(other),
                    forall|t: int, s: int| 0 <= t < i && 0 <= s < C2 ==> #[trigger] res.entry(t, s) == self.dot(other, t, s, C as int),
                    forall|s: int| 0 <= s < j ==> #[trigger] res.entry(i as int, s) == self.dot(other, i as int, s, C as int),
                decreases C2 - j,
            {
                let mut e: i64 = 0;
                let mut p: usize = 0;
                while p < C
                    invariant
                        i < R,
                        j < C2,
                        p <= C,
                        self.wf(),
                        other.wf(),
                        self.mul_fits(other),
                        e == self.dot(other, i as int, j as int, p as int),
                    decreases C - p,
                {
                    let x = self.value(i, p);
                    let y = other.value(p, j);
                    assert(i64::MIN <= self.dot(other, i as int, j as int, p + 1) <= i64::MAX);
                    e = ((e as i128) + (x as i128) * (y as i128)) as i64;
                    p = p + 1;
                }
                res.set_value(i, j, e);
                j = j + 1;
            }
            i = i + 1;
        }
        res
    }

    /// A copy of the matrix.
    pub fn clone(&self) -> (r: RectMatrix<R, C>)
        requires
            self.wf(),
        ensures
            r.wf(),
            r.same_entries(self),
    {
        let mut data: Vec<i64> = Vec::new();
        let n = self.data.len();
        let mut k: usize = 0;
        while k < n
            invariant
                k <= n,
                n == self.data@.len(),
                data@ == self.data@.subrange(0, k as int),
            decreases n - k,
        {
            data.push(self.data[k]);
            k = k + 1;
        }
        assert(data@ == self.data@);
        RectMatrix { data }
    }
}

impl<const R: usize, const C: usize> PartialEq for RectMatrix<R, C> {
    fn eq(&self, other: &RectMatrix<R, C>) -> (r: bool) {
        self.same_storage(other)
    }
}

impl<const R: usize, const C: usize> vstd::std_specs::cmp::PartialEqSpecImpl for RectMatrix<R, C> {
    open spec fn obeys_eq_spec() -> bool {
        true
    }

    open spec fn eq_spec(&self, other: &RectMatrix<R, C>) -> bool {
        self.storage() == other.storage()
    }
}

impl<const L: usize> RectMatrix<1, L> {
    /// A row vector holding `data` first and zeros after it.
    pub fn row_from_vec(data: &[i64]) -> (r: RowVector<L>)
        requires
            data@.len() <= L,
        ensures
            r.wf(),
            forall|j: int| 0 <= j < L ==> #[trigger] r.entry(0, j) == if j < data@.len() { data@[j] } else { 0i64 },
    {
        let mut r = Self::zeros();
        let mut j: usize = 0;
        while j < data.len()
            invariant
                j <= data@.len(),
                data@.len() <= L,
                r.wf(),
                forall|s: int| 0 <= s < L ==> #[trigger] r.entry(0, s) == if s < j { data@[s] } else { 0i64 },
            decreases data@.len() - j,
        {
            r.set_value(0, j, data[j]);
            j = j + 1;
        }
        r
    }
}

impl<const L: usize> RectMatrix<L, 1> {
    /// A column vector holding `data` first and zeros after it.
    pub fn col_from_vec(data: &[i64]) -> (r: ColVector<L>)
        requires
            data@.len() <= L,
        ensures
            r.wf(),
            forall|i: int| 0 <= i < L ==> #[trigger] r.entry(i, 0) == if i < data@.len() { data@[i] } else { 0i64 },
    {
        let mut r = Self::zeros();
        let mut i: usize = 0;
        while i < data.len()
            invariant
                i <= data@.len(),
                data@.len() <= L,
                r.wf(),
                forall|s: int| 0 <= s < L ==> #[trigger] r.entry(s, 0) == if s < i { data@[s] } else { 0i64 },
            decreases data@.len() - i,
        {
            r.set_value(i, 0, data[i]);
            i = i + 1;
        }
        r
    }
}

} // verus!

//! Tensor-product Bézier surfaces.
use vstd::prelude::*;
use crate::bernstein::MAX_DEGREE;
use crate::bezier::BezierCurve;
use crate::bezier::coord_seq;
use crate::point::Point;
use crate::poly::abs_int;
use crate::poly::bernstein_total;
use crate::poly::direct;
use crate::poly::lemma_bernstein_total_mono;
use crate::poly::lemma_casteljau_direct;
use crate::poly::lemma_direct_sum_bound;
use crate::poly::lemma_power_mono_exp;
use crate::poly::power;

verus! {

/// Copies of the points of `v`.
pub fn copy_points<const S: usize>(v: &Vec<Point<S>>) -> (r: Vec<Point<S>>)
    requires
        forall|i: int| 0 <= i < v@.len() ==> (#[trigger] v@[i]).wf(),
    ensures
        r@.len() == v@.len(),
        forall|i: int| 0 <= i < v@.len() ==> (#[trigger] r@[i]).wf() && r@[i]@ == v@[i]@,
{
    let mut r: Vec<Point<S>> = Vec::new();
    let mut i: usize = 0;
    while i < v.len()
        invariant
            i <= v@.len(),
            forall|t: int| 0 <= t < v@.len() ==> (#[trigger] v@[t]).wf(),
            r@.len() == i,
            forall|t: int| 0 <= t < i ==> (#[trigger] r@[t]).wf() && r@[t]@ == v@[t]@,
        decreases v@.len() - i,
    {
        r.push(v[i].copy());
        i = i + 1;
    }
    r
}

/// A Bézier surface: a grid of control points, `rows` by `cols`, mapping
/// `(xi, eta)` to a point; the degree along `xi` is `rows - 1` and along
/// `eta` is `cols - 1`.
pub struct BezierSurf<const S: usize> {
    pub data: Vec<Vec<Point<S>>>,
}

impl<const S: usize> BezierSurf<S> {
    /// The number of rows of the grid.
    pub open spec fn rows(&self) -> nat {
        self.data@.len()
    }

    /// The number of columns of the grid.
    pub open spec fn cols(&self) -> nat {
        self.data@[0]@.len()
    }

    /// A non-empty rectangular grid of well-formed points.
    pub open spec fn wf(&self) -> bool {
        &&& 1 <= self.rows() <= u32::MAX
        &&& 1 <= self.cols() <= u32::MAX
        &&& forall|i: int| 0 <= i < self.rows() ==> (#[trigger] self.data@[i])@.len() == self.cols()
        &&& forall|i: int, j: int|
            0 <= i < self.rows() && 0 <= j < self.cols() ==> (#[trigger] self.data@[i]@[j]).wf()
    }

    /// Coordinate `k` of the points of row `i`.
    pub open spec fn row_coords(&self, i: int, k: int) -> Seq<int> {
        coord_seq(self.data@[i]@, k)
    }

    /// `dxi^(rows-1) * deta^(cols-1)` times coordinate `k` of the surface at
    /// `(xi / dxi, eta / deta)`:
    /// `sum_i sum_j B(rows-1, i)(xi) * B(cols-1, j)(eta) * p[i][j]`.
    pub open spec fn value(&self, k: int, xi: int, dxi: int, eta: int, deta: int) -> int {
        direct(Seq::new(self.rows(), |i: int| direct(self.row_coords(i, k), eta, deta - eta)), xi, dxi - xi)
    }

    /// The scaled values fit an `i64`.
    pub open spec fn fits(&self, dxi: int, deta: int) -> bool {
        &&& dxi >= 1
        &&& deta >= 1
        &&& forall|i: int, j: int, k: int|
            0 <= i < self.rows() && 0 <= j < self.cols() && 0 <= k < S ==> abs_int(
                #[trigger] self.data@[i]@[j]@[k] as int,
            ) * (power(deta, (self.cols() - 1) as nat) * power(dxi, (self.rows() - 1) as nat)) <= i64::MAX
    }

    /// The degree along `xi`.
    pub fn degree_xi(&self) -> (r: u32)
        requires
            self.wf(),
        ensures
            r == self.rows() - 1,
    {
        (self.data.len() - 1) as u32
    }

    /// The degree along `eta`.
    pub fn degree_eta(&self) -> (r: u32)
        requires
            self.wf(),
        ensures
            r == self.cols() - 1,
    {
        (self.data[0].len() - 1) as u32
    }

    /// The curve through row `i` fits at denominator `deta`, and its
    /// coordinate `k` at `eta / deta` times `dxi^(rows-1)` fits too.
    proof fn lemma_row_fits(&self, i: int, dxi: int, eta: int, deta: int, c: BezierCurve<S>)
        requires
            self.wf(),
            self.fits(dxi, deta),
            0 <= i < self.rows(),
            0 <= eta <= deta,
            c.wf(),
            c.p@.len() == self.cols(),
            forall|j: int| 0 <= j < self.cols() ==> (#[trigger] c.p@[j])@ == self.data@[i]@[j]@,
        ensures
            c.fits(deta),
            forall|k: int| 0 <= k < S ==> abs_int(#[trigger] c.direct_coord(k, eta, deta)) * power(dxi, (self.rows() - 1) as nat) <= i64::MAX,
            forall|k: int| 0 <= k < S ==> #[trigger] c.direct_coord(k, eta, deta) == direct(self.row_coords(i, k), eta, deta - eta),
    {
        let m = (self.cols() - 1) as nat;
        let n = (self.rows() - 1) as nat;
        let de = power(deta, m);
        let dx = power(dxi, n);
        lemma_power_mono_exp(deta, 0, m);
        lemma_power_mono_exp(dxi, 0, n);
        assert forall|j: int, k: int| 0 <= j < c.p@.len() && 0 <= k < S implies abs_int(#[trigger] c.p@[j]@[k] as int)
            * power(deta, c.deg()) <= i64::MAX by {
            let x = abs_int(c.p@[j]@[k] as int);
            assert(c.p@[j]@[k] == self.data@[i]@[j]@[k]);
            assert(x * de <= x * (de * dx)) by (nonlinear_arith)
                requires
                    x >= 0,
                    de >= 1,
                    dx >= 1,
            ;
        }
        assert forall|k: int| 0 <= k < S implies #[trigger] c.direct_coord(k, eta, deta) == direct(self.row_coords(i, k), eta, deta - eta) by {
            assert(coord_seq(c.p@, k) =~= self.row_coords(i, k));
        }
        assert forall|k: int| 0 <= k < S implies abs_int(#[trigger] c.direct_coord(k, eta, deta)) * dx <= i64::MAX by {
            let col = self.row_coords(i, k);
            assert(coord_seq(c.p@, k) =~= col);
            assert forall|j: int| 0 <= j < col.len() implies #[trigger] abs_int(col[j]) * (de * dx) <= i64::MAX by {
                assert(col[j] == self.data@[i]@[j]@[k]);
            }
            lemma_direct_sum_bound(col, m, eta, deta - eta, m + 1, de * dx, i64::MAX as int);
            lemma_bernstein_total_mono(m, eta, deta - eta, m + 1);
            let s = abs_int(direct(col, eta, deta - eta));
            let tot = bernstein_total(m, eta, deta - eta, m + 1);
            assert(s * dx <= i64::MAX) by (nonlinear_arith)
                requires
                    s * (de * dx) <= i64::MAX * tot,
                    tot <= de,
                    de >= 1,
                    s >= 0,
                    dx >= 1,
            ;
        }
    }

    /// The curves through the rows, evaluated at `eta / deta`.
    fn row_values(&self, dxi: u64, eta: u64, deta: u64, by_definition: bool) -> (r: Vec<Point<S>>)
        requires
            self.wf(),
            self.fits(dxi as int, deta as int),
            eta <= deta,
            by_definition ==> self.cols() - 1 <= MAX_DEGREE && power(deta as int, (self.cols() - 1) as nat) <= u64::MAX,
        ensures
            r@.len() == self.rows(),
            forall|i: int| 0 <= i < self.rows() ==> (#[trigger] r@[i]).wf(),
            forall|i: int, k: int| 0 <= i < self.rows() && 0 <= k < S ==> (#[trigger] r@[i]@[k]) == direct(self.row_coords(i, k), eta as int, deta - eta),
            forall|i: int, k: int| 0 <= i < self.rows() && 0 <= k < S ==> abs_int(#[trigger] r@[i]@[k] as int) * power(dxi as int, (self.rows() - 1) as nat) <= i64::MAX,
    {
        let mut q: Vec<Point<S>> = Vec::new();
        let mut i: usize = 0;
        while i < self.data.len()
            invariant
                i <= self.rows(),
                self.wf(),
                self.fits(dxi as int, deta as int),
                eta <= deta,
                by_definition ==> self.cols() - 1 <= MAX_DEGREE && power(deta as int, (self.cols() - 1) as nat) <= u64::MAX,
                q@.len() == i,
                forall|t: int| 0 <= t < i ==> (#[trigger] q@[t]).wf(),
                forall|t: int, k: int| 0 <= t < i && 0 <= k < S ==> (#[trigger] q@[t]@[k]) == direct(self.row_coords(t, k), eta as int, deta - eta),
                forall|t: int, k: int| 0 <= t < i && 0 <= k < S ==> abs_int(#[trigger] q@[t]@[k] as int) * power(dxi as int, (self.rows() - 1) as nat) <= i64::MAX,
            decreases self.rows() - i,
        {
            let row = copy_points(&self.data[i]);
            let c = BezierCurve::<S>::create(row);
            proof {
                self.lemma_row_fits(i as int, dxi as int, eta as int, deta as int, c);
                assert forall|k: int| 0 <= k < S implies #[trigger] c.casteljau_coord(k, eta as int, deta as int) == c.direct_coord(k, eta as int, deta as int) by {
                    lemma_casteljau_direct(coord_seq(c.p@, k), eta as int, deta - eta);
                }
            }
            if by_definition {
                let mut out = Point::<S>::origin();
                c.evaluate_direct(eta, deta, &mut out);
                q.push(out);
            } else {
                q.push(c.evaluate_de_casteljau(eta, deta));
            }
            i = i + 1;
        }
        q
    }

    /// The curve through the row values fits at denominator `dxi`, and its
    /// value is the surface's.
    proof fn lemma_column(&self, q: Seq<Point<S>>, c: BezierCurve<S>, xi: int, dxi: int, eta: int, deta: int)
        requires
            self.wf(),
            dxi >= 1,
            0 <= xi <= dxi,
            q.len() == self.rows(),
            forall|i: int, k: int| 0 <= i < self.rows() && 0 <= k < S ==> (#[trigger] q[i]@[k]) == direct(self.row_coords(i, k), eta, deta - eta),
            forall|i: int, k: int| 0 <= i < self.rows() && 0 <= k < S ==> abs_int(#[trigger] q[i]@[k] as int) * power(dxi, (self.rows() - 1) as nat) <= i64::MAX,
            c.wf(),
            c.p@.len() == q.len(),
            forall|i: int| 0 <= i < q.len() ==> (#[trigger] c.p@[i])@ == q[i]@,
        ensures
            c.fits(dxi),
            forall|k: int| 0 <= k < S ==> #[trigger] c.direct_coord(k, xi, dxi) == self.value(k, xi, dxi, eta, deta),
            forall|k: int| 0 <= k < S ==> #[trigger] c.casteljau_coord(k, xi, dxi) == self.value(k, xi, dxi, eta, deta),
    {
        assert forall|i: int, k: int| 0 <= i < c.p@.len() && 0 <= k < S implies abs_int(#[trigger] c.p@[i]@[k] as int)
            * power(dxi, c.deg()) <= i64::MAX by {
            assert(c.p@[i]@[k] == q[i]@[k]);
        }
        assert forall|k: int| 0 <= k < S implies #[trigger] c.direct_coord(k, xi, dxi) == self.value(k, xi, dxi, eta, deta) by {
            assert(coord_seq(c.p@, k) =~= Seq::new(self.rows(), |i: int| direct(self.row_coords(i, k), eta, deta - eta))) by {
                assert forall|i: int| 0 <= i < self.rows() implies #[trigger] coord_seq(c.p@, k)[i] == direct(self.row_coords(i, k), eta, deta - eta) by {
                    assert(c.p@[i]@[k] == q[i]@[k]);
                }
            }
        }
        assert forall|k: int| 0 <= k < S implies #[trigger] c.casteljau_coord(k, xi, dxi) == self.value(k, xi, dxi, eta, deta) by {
            c.lemma_wf();
            lemma_casteljau_direct(coord_seq(c.p@, k), xi, dxi - xi);
            assert(c.direct_coord(k, xi, dxi) == self.value(k, xi, dxi, eta, deta));
        }
    }

    /// Writes into `output` the point of the surface at
    /// `(xi / dxi, eta / deta)`, scaled by `dxi^(rows-1) * deta^(cols-1)`, by
    /// the definition.
    pub fn evaluate_direct(&self, xi: u64, dxi: u64, eta: u64, deta: u64, output: &mut Point<S>)
        requires
            self.wf(),
            old(output).wf(),
            xi <= dxi,
            eta <= deta,
            self.fits(dxi as int, deta as int),
            self.rows() - 1 <= MAX_DEGREE,
            self.cols() - 1 <= MAX_DEGREE,
            power(dxi as int, (self.rows() - 1) as nat) <= u64::MAX,
            power(deta as int, (self.cols() - 1) as nat) <= u64::MAX,
        ensures
            final(output).wf(),
            forall|k: int| 0 <= k < S ==> #[trigger] final(output)@[k] == self.value(k, xi as int, dxi as int, eta as int, deta as int),
    {
        let q = self.row_values(dxi, eta, deta, true);
        let ghost qs = q@;
        let c = BezierCurve::<S>::create(copy_points(&q));
        proof {
            self.lemma_column(qs, c, xi as int, dxi as int, eta as int, deta as int);
        }
        c.evaluate_direct(xi, dxi, output);
    }

    /// Writes into `output` the point of the surface at
    /// `(xi / dxi, eta / deta)`, scaled by `dxi^(rows-1) * deta^(cols-1)`, by
    /// De Casteljau's algorithm: first along `eta` on each row, then along
    /// `xi` on the results.
    pub fn evaluate_de_casteljau(&self, xi: u64, dxi: u64, eta: u64, deta: u64, output: &mut Point<S>)
        requires
            self.wf(),
            xi <= dxi,
            eta <= deta,
            self.fits(dxi as int, deta as int),
        ensures
            final(output).wf(),
            forall|k: int| 0 <= k < S ==> #[trigger] final(output)@[k] == self.value(k, xi as int, dxi as int, eta as int, deta as int),
    {
        let q = self.row_values(dxi, eta, deta, false);
        let ghost qs = q@;
        let c = BezierCurve::<S>::create(copy_points(&q));
        proof {
            self.lemma_column(qs, c, xi as int, dxi as int, eta as int, deta as int);
        }
        let res = c.evaluate_de_casteljau(xi, dxi);
        res.clone_to(output);
    }
}

} // verus!

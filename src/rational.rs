//! Rational Bézier curves, evaluated through homogeneous coordinates.
use vstd::prelude::*;
use crate::bernstein::MAX_DEGREE;
use crate::bezier::BezierCurve;
use crate::bezier::coord_seq;
use crate::point::Point;
use crate::point::div_trunc;
use crate::poly::bernstein_total;
use crate::poly::direct;
use crate::poly::direct_sum;
use crate::poly::lemma_bernstein_nonneg;
use crate::poly::lemma_bernstein_partition;
use crate::poly::lemma_power_mono_exp;
use crate::poly::power;

verus! {

/// A weighted sum with weights of at least one and non-negative basis
/// values is at least the sum of the basis values.
proof fn lemma_weighted_sum_ge(w: Seq<int>, n: nat, a: int, b: int, k: nat)
    requires
        0 <= a,
        0 <= b,
        k <= w.len(),
        forall|i: int| 0 <= i < w.len() ==> #[trigger] w[i] >= 1,
    ensures
        direct_sum(w, n, a, b, k) >= bernstein_total(n, a, b, k),
    decreases k,
{
    if k > 0 {
        let j = (k - 1) as nat;
        lemma_weighted_sum_ge(w, n, a, b, j);
        lemma_bernstein_nonneg(n, j, a, b);
        let t = crate::poly::bernstein_scaled(n, j, a, b);
        let x = w[j as int];
        assert(t * x >= t) by (nonlinear_arith)
            requires
                t >= 0,
                x >= 1,
        ;
    }
}

/// A rational Bézier curve of `S` coordinates: control points with one
/// weight each, lifted to homogeneous coordinates (`H == S + 1`).
pub struct RatBezierCurve<const S: usize, const H: usize> {
    pub p: Vec<Point<S>>,
    pub weights: Vec<i64>,
    pub pw: Vec<Point<H>>,
    pub bez: BezierCurve<H>,
}

impl<const S: usize, const H: usize> RatBezierCurve<S, H> {
    /// Control points and weights agree in number, and the homogeneous curve
    /// holds each control point times its weight, followed by the weight.
    pub open spec fn wf(&self) -> bool {
        &&& H == S + 1
        &&& self.p@.len() == self.weights@.len()
        &&& self.pw@.len() == self.p@.len()
        &&& self.bez.wf()
        &&& self.bez.p@.len() == self.p@.len()
        &&& forall|i: int| 0 <= i < self.p@.len() ==> (#[trigger] self.p@[i]).wf()
        &&& forall|i: int|
            0 <= i < self.p@.len() ==> (#[trigger] self.pw@[i])@ == Seq::new(
                S as nat,
                |j: int| (self.p@[i]@[j] * self.weights@[i]) as i64,
            ).push(self.weights@[i]) && self.bez.p@[i]@ == self.pw@[i]@
    }

    /// Every weight is at least one.
    pub open spec fn positive_weights(&self) -> bool {
        forall|i: int| 0 <= i < self.weights@.len() ==> #[trigger] self.weights@[i] >= 1
    }

    /// The curve with control points `p` and weights `weights`, which must be
    /// as many as the points.
    pub fn create(p: Vec<Point<S>>, weights: Vec<i64>) -> (r: RatBezierCurve<S, H>)
        requires
            H == S + 1,
            p@.len() == weights@.len(),
            1 <= p@.len() <= u32::MAX,
            forall|i: int| 0 <= i < p@.len() ==> (#[trigger] p@[i]).wf(),
            forall|i: int| 0 <= i < p@.len() ==> (#[trigger] p@[i]).scale_fits(weights@[i] as int),
        ensures
            r.wf(),
            r.p@ == p@,
            r.weights@ == weights@,
    {
        let mut pw: Vec<Point<H>> = Vec::new();
        let mut i: usize = 0;
        while i < p.len()
            invariant
                i <= p@.len(),
                H == S + 1,
                p@.len() == weights@.len(),
                forall|t: int| 0 <= t < p@.len() ==> (#[trigger] p@[t]).wf(),
                forall|t: int| 0 <= t < p@.len() ==> (#[trigger] p@[t]).scale_fits(weights@[t] as int),
                pw@.len() == i,
                forall|t: int| 0 <= t < i ==> (#[trigger] pw@[t]).wf(),
                forall|t: int|
                    0 <= t < i ==> (#[trigger] pw@[t])@ == Seq::new(
                        S as nat,
                        |j: int| (p@[t]@[j] * weights@[t]) as i64,
                    ).push(weights@[t]),
            decreases p@.len() - i,
        {
            let h = p[i].to_homogeneous::<H>(weights[i]);
            pw.push(h);
            i = i + 1;
        }
        let mut lifted: Vec<Point<H>> = Vec::new();
        let mut t: usize = 0;
        while t < pw.len()
            invariant
                t <= pw@.len(),
                lifted@.len() == t,
                forall|u: int| 0 <= u < pw@.len() ==> (#[trigger] pw@[u]).wf(),
                forall|u: int| 0 <= u < t ==> (#[trigger] lifted@[u]).wf() && lifted@[u]@ == pw@[u]@,
            decreases pw@.len() - t,
        {
            lifted.push(pw[t].copy());
            t = t + 1;
        }
        let bez = BezierCurve::<H>::create(lifted);
        RatBezierCurve { p, weights, pw, bez }
    }

    /// Writes into `output` the point of the curve at `xi / den`: the
    /// homogeneous curve evaluated by the definition, each coordinate
    /// divided by the last, truncating toward zero.
    pub fn evaluate_fill(&self, xi: u64, den: u64, output: &mut Point<S>)
        requires
            self.wf(),
            self.positive_weights(),
            self.bez.deg() <= MAX_DEGREE,
            xi <= den,
            self.bez.fits(den as int),
            power(den as int, self.bez.deg()) <= u64::MAX,
        ensures
            final(output).wf(),
            forall|k: int| 0 <= k < S ==> #[trigger] final(output)@[k] == div_trunc(
                self.bez.direct_coord(k, xi as int, den as int),
                self.bez.direct_coord(S as int, xi as int, den as int),
            ),
            self.bez.direct_coord(S as int, xi as int, den as int) >= 1,
    {
        let mut cw = Point::<H>::origin();
        self.bez.evaluate_direct(xi, den, &mut cw);
        proof {
            self.bez.lemma_wf();
            let n = self.bez.deg();
            let ws = coord_seq(self.bez.p@, S as int);
            assert forall|i: int| 0 <= i < ws.len() implies #[trigger] ws[i] >= 1 by {
                assert(self.bez.p@[i]@ == self.pw@[i]@);
                assert(self.pw@[i]@[S as int] == self.weights@[i]);
            }
            lemma_weighted_sum_ge(ws, n, xi as int, den - xi, n + 1);
            lemma_bernstein_partition(n, xi as int, den - xi);
            lemma_power_mono_exp(den as int, 0, n);
            assert(cw.weight() == cw@[S as int]);
            assert(cw@[S as int] == self.bez.direct_coord(S as int, xi as int, den as int));
            assert(self.bez.direct_coord(S as int, xi as int, den as int) == direct_sum(ws, n, xi as int, den - xi, n + 1));
        }
        let c = cw.to_cartesian::<S>();
        c.clone_to(output);
    }
}

} // verus!

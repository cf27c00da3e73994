//! Bézier curves over integer control points, evaluated at rational
//! parameters by the definition and by De Casteljau's algorithm.
use vstd::prelude::*;
use crate::bernstein::Bernstein;
use crate::bernstein::MAX_DEGREE;
use crate::point::Point;
use crate::poly::abs_int;
use crate::poly::bernstein_scaled;
use crate::poly::bernstein_total;
use crate::poly::binom;
use crate::poly::casteljau;
use crate::poly::direct;
use crate::poly::direct_sum;
use crate::poly::lemma_bernstein_total_mono;
use crate::poly::lemma_direct_sum_bound;
use crate::poly::lemma_power_mono_exp;
use crate::poly::lemma_power_step;
use crate::poly::lerp_seq;
use crate::poly::power;

verus! {

/// Coordinate `k` of each point of `pts`.
pub open spec fn coord_seq<const S: usize>(pts: Seq<Point<S>>, k: int) -> Seq<int> {
    Seq::new(pts.len(), |i: int| pts[i]@[k] as int)
}

/// `|x| * d^(e+1) <= m` and `|y| * d^(e+1) <= m` give
/// `|b * x + a * y| * d^e <= m` for `a + b == d`.
proof fn lemma_lerp_bound(x: int, y: int, a: int, b: int, d: int, e: nat, m: int)
    requires
        0 <= a,
        0 <= b,
        a + b == d,
        abs_int(x) * power(d, e + 1) <= m,
        abs_int(y) * power(d, e + 1) <= m,
    ensures
        abs_int(b * x + a * y) * power(d, e) <= m,
{
    lemma_power_step(d, e);
    let p = power(d, e);
    let u = abs_int(x) * p;
    let v = abs_int(y) * p;
    if d == 0 {
        assert(a == 0 && b == 0);
        assert(b * x + a * y == 0) by (nonlinear_arith)
            requires
                a == 0,
                b == 0,
        ;
        assert(abs_int(x) * power(d, e + 1) == 0) by (nonlinear_arith)
            requires
                power(d, e + 1) == d * p,
                d == 0,
        ;
    } else {
        assert(u * d <= m) by (nonlinear_arith)
            requires
                u == abs_int(x) * p,
                abs_int(x) * (d * p) <= m,
        ;
        assert(v * d <= m) by (nonlinear_arith)
            requires
                v == abs_int(y) * p,
                abs_int(y) * (d * p) <= m,
        ;
        let ax = abs_int(x);
        let ay = abs_int(y);
        let w = abs_int(b * x + a * y);
        assert(w <= b * ax + a * ay) by (nonlinear_arith)
            requires
                0 <= a,
                0 <= b,
                ax == abs_int(x),
                ay == abs_int(y),
                w == abs_int(b * x + a * y),
        ;
        assert(p >= 0) by {
            crate::poly::lemma_power_bounds(d, d, e);
        }
        assert(w * p <= b * u + a * v) by (nonlinear_arith)
            requires
                w <= b * ax + a * ay,
                p >= 0,
                u == ax * p,
                v == ay * p,
        ;
        assert(b * u + a * v <= m) by (nonlinear_arith)
            requires
                u * d <= m,
                v * d <= m,
                a + b == d,
                0 <= a,
                0 <= b,
                d >= 1,
        ;
    }
}

/// A Bézier curve: a map from the parameter `xi` in `[0, 1]` to points of
/// `SIZE` coordinates, defined by `p.len()` control points (degree
/// `p.len() - 1`).
pub struct BezierCurve<const SIZE: usize> {
    pub p: Vec<Point<SIZE>>,
    pub bernstein: Vec<Bernstein>,
}

impl<const SIZE: usize> BezierCurve<SIZE> {
    /// The degree.
    pub open spec fn deg(&self) -> nat {
        (self.p@.len() - 1) as nat
    }

    /// At least one control point, every one well formed, and the basis
    /// polynomials of the degree kept in order.
    pub closed spec fn wf(&self) -> bool {
        &&& self.p@.len() >= 1
        &&& self.p@.len() <= u32::MAX
        &&& forall|i: int| 0 <= i < self.p@.len() ==> (#[trigger] self.p@[i]).wf()
        &&& self.bernstein@.len() == self.p@.len()
        &&& forall|i: int|
            0 <= i < self.p@.len() ==> (#[trigger] self.bernstein@[i]).wf() && self.bernstein@[i].deg()
                == self.deg() && self.bernstein@[i].idx() == i
    }

    /// The scaled values of the curve fit an `i64` at parameters of
    /// denominator `den`: every control coordinate times `den^degree` does.
    pub open spec fn fits(&self, den: int) -> bool {
        &&& den >= 1
        &&& forall|i: int, k: int|
            0 <= i < self.p@.len() && 0 <= k < SIZE ==> abs_int(#[trigger] self.p@[i]@[k] as int) * power(
                den,
                self.deg(),
            ) <= i64::MAX
    }

    /// `den^degree` times coordinate `k` of the curve at `xi / den`, by the
    /// definition.
    pub open spec fn direct_coord(&self, k: int, xi: int, den: int) -> int {
        direct(coord_seq(self.p@, k), xi, den - xi)
    }

    /// `den^degree` times coordinate `k` of the curve at `xi / den`, by De
    /// Casteljau's algorithm.
    pub open spec fn casteljau_coord(&self, k: int, xi: int, den: int) -> int {
        casteljau(coord_seq(self.p@, k), xi, den - xi)
    }

    /// What well-formedness says of the control points.
    pub proof fn lemma_wf(&self)
        requires
            self.wf(),
        ensures
            1 <= self.p@.len() <= u32::MAX,
            forall|i: int| 0 <= i < self.p@.len() ==> (#[trigger] self.p@[i]).wf(),
    {
    }

    /// The curve with control points `cpoints`; there must be at least one.
    pub fn create(cpoints: Vec<Point<SIZE>>) -> (r: BezierCurve<SIZE>)
        requires
            1 <= cpoints@.len() <= u32::MAX,
            forall|i: int| 0 <= i < cpoints@.len() ==> (#[trigger] cpoints@[i]).wf(),
        ensures
            r.wf(),
            r.p@ == cpoints@,
    {
        let len = cpoints.len();
        let n = (len - 1) as u32;
        let mut b: Vec<Bernstein> = Vec::new();
        let mut i: usize = 0;
        while i < len
            invariant
                i <= len,
                len == cpoints@.len(),
                n + 1 == len,
                b@.len() == i,
                forall|t: int| 0 <= t < i ==> (#[trigger] b@[t]).wf() && b@[t].deg() == n && b@[t].idx() == t,
            decreases len - i,
        {
            match Bernstein::create(n, i as u32) {
                Some(x) => b.push(x),
                None => {},
            }
            i = i + 1;
        }
        BezierCurve { p: cpoints, bernstein: b }
    }

    /// The degree.
    pub fn degree(&self) -> (r: u32)
        requires
            self.wf(),
        ensures
            r == self.deg(),
    {
        (self.p.len() - 1) as u32
    }

    /// The control points.
    pub fn control_points(&self) -> (r: &Vec<Point<SIZE>>)
        ensures
            r@ == self.p@,
    {
        &self.p
    }

    /// Writes `sum_i w[i] * p[i]` into `output`, where `w` holds the scaled
    /// Bernstein values at `xi / den`.
    fn combine(&self, w: &Vec<i128>, xi: u64, den: u64, output: &mut Point<SIZE>)
        requires
            self.wf(),
            old(output).wf(),
            xi <= den,
            self.fits(den as int),
            w@.len() == self.p@.len(),
            forall|i: int| 0 <= i < w@.len() ==> #[trigger] w@[i] == bernstein_scaled(self.deg(), i as nat, xi as int, den - xi),
        ensures
            final(output).wf(),
            forall|k: int| 0 <= k < SIZE ==> #[trigger] final(output)@[k] == self.direct_coord(k, xi as int, den as int),
    {
        let ghost n = self.deg();
        let ghost a = xi as int;
        let ghost b = den - xi;
        let ghost d = power(den as int, n);
        proof {
            lemma_bernstein_total_mono(n, a, b, n + 1);
            lemma_power_mono_exp(den as int, 0, n);
        }
        let len = self.p.len();
        let mut k: usize = 0;
        while k < SIZE
            invariant
                k <= SIZE,
                self.wf(),
                output.wf(),
                len == self.p@.len(),
                n == self.deg(),
                a == xi,
                b == den - xi,
                xi <= den,
                d == power(den as int, n),
                d >= 1,
                bernstein_total(n, a, b, n + 1) <= d,
                forall|i: nat| i < n + 1 ==> #[trigger] bernstein_scaled(n, i, a, b) <= bernstein_total(n, a, b, n + 1),
                self.fits(den as int),
                w@.len() == self.p@.len(),
                forall|i: int| 0 <= i < w@.len() ==> #[trigger] w@[i] == bernstein_scaled(n, i as nat, a, b),
                forall|t: int| 0 <= t < k ==> #[trigger] output@[t] == self.direct_coord(t, a, den as int),
            decreases SIZE - k,
        {
            let ghost col = coord_seq(self.p@, k as int);
            proof {
                assert forall|i: int| 0 <= i < col.len() implies #[trigger] abs_int(col[i]) * d <= i64::MAX by {
                    assert(col[i] == self.p@[i]@[k as int]);
                }
            }
            let mut acc: i128 = 0;
            let mut i: usize = 0;
            while i < len
                invariant
                    i <= len,
                    k < SIZE,
                    self.wf(),
                    len == self.p@.len(),
                    n == self.deg(),
                    col == coord_seq(self.p@, k as int),
                    a == xi,
                    b == den - xi,
                    xi <= den,
                    d == power(den as int, n),
                    d >= 1,
                    bernstein_total(n, a, b, n + 1) <= d,
                    forall|i: nat| i < n + 1 ==> #[trigger] bernstein_scaled(n, i, a, b) <= bernstein_total(n, a, b, n + 1),
                    forall|i: int| 0 <= i < col.len() ==> #[trigger] abs_int(col[i]) * d <= i64::MAX,
                    w@.len() == self.p@.len(),
                    forall|i: int| 0 <= i < w@.len() ==> #[trigger] w@[i] == bernstein_scaled(n, i as nat, a, b),
                    acc == direct_sum(col, n, a, b, i as nat),
                decreases len - i,
            {
                let x = self.p[i].value(k);
                proof {
                    lemma_direct_sum_bound(col, n, a, b, (i + 1) as nat, d, i64::MAX as int);
                    lemma_bernstein_total_mono(n, a, b, (i + 1) as nat);
                    crate::poly::lemma_bernstein_nonneg(n, i as nat, a, b);
                    let s = direct_sum(col, n, a, b, (i + 1) as nat);
                    let tot = bernstein_total(n, a, b, (i + 1) as nat);
                    assert(abs_int(s) <= i64::MAX) by (nonlinear_arith)
                        requires
                            abs_int(s) * d <= i64::MAX * tot,
                            tot <= d,
                            d >= 1,
                            abs_int(s) >= 0,
                    ;
                    let t = bernstein_scaled(n, i as nat, a, b);
                    assert(col[i as int] == x);
                    assert(abs_int(t * x) <= i64::MAX) by (nonlinear_arith)
                        requires
                            abs_int(x as int) * d <= i64::MAX,
                            0 <= t <= d,
                    ;
                }
                acc = acc + w[i] * (x as i128);
                i = i + 1;
            }
            proof {
                lemma_direct_sum_bound(col, n, a, b, len as nat, d, i64::MAX as int);
                let tot = bernstein_total(n, a, b, len as nat);
                assert(abs_int(acc as int) <= i64::MAX) by (nonlinear_arith)
                    requires
                        abs_int(acc as int) * d <= i64::MAX * tot,
                        tot <= d,
                        d >= 1,
                        abs_int(acc as int) >= 0,
                ;
                assert(acc == self.direct_coord(k as int, a, den as int));
            }
            output.set_value(k, acc as i64);
            k = k + 1;
        }
    }

    /// Writes into `output` the point of the curve at `xi / den`, scaled by
    /// `den^degree`, by the definition; degrees one to three take the
    /// closed forms.
    pub fn evaluate_direct(&self, xi: u64, den: u64, output: &mut Point<SIZE>)
        requires
            self.wf(),
            old(output).wf(),
            self.deg() <= MAX_DEGREE,
            xi <= den,
            self.fits(den as int),
            power(den as int, self.deg()) <= u64::MAX,
        ensures
            final(output).wf(),
            forall|k: int| 0 <= k < SIZE ==> #[trigger] final(output)@[k] == self.direct_coord(k, xi as int, den as int),
    {
        let n = self.p.len() - 1;
        if n == 1 {
            return self.evaluate_direct_linear(xi, den, output);
        } else if n == 2 {
            return self.evaluate_direct_quadratic(xi, den, output);
        } else if n == 3 {
            return self.evaluate_direct_cubic(xi, den, output);
        }
        let mut w: Vec<i128> = Vec::new();
        let mut i: usize = 0;
        while i <= n
            invariant
                i <= n + 1,
                n == self.deg(),
                self.wf(),
                self.deg() <= MAX_DEGREE,
                1 <= den,
                xi <= den,
                power(den as int, self.deg()) <= u64::MAX,
                w@.len() == i,
                forall|t: int| 0 <= t < i ==> #[trigger] w@[t] == bernstein_scaled(self.deg(), t as nat, xi as int, den - xi),
            decreases n + 1 - i,
        {
            let v = self.bernstein[i].evaluate_scaled(xi, den);
            w.push(v as i128);
            i = i + 1;
        }
        self.combine(&w, xi, den, output);
    }

    /// The closed form for degree one: `(den - xi) * p0 + xi * p1`.
    pub fn evaluate_direct_linear(&self, xi: u64, den: u64, output: &mut Point<SIZE>)
        requires
            self.wf(),
            old(output).wf(),
            self.deg() == 1,
            xi <= den,
            self.fits(den as int),
        ensures
            final(output).wf(),
            forall|k: int| 0 <= k < SIZE ==> #[trigger] final(output)@[k] == self.direct_coord(k, xi as int, den as int),
    {
        let a = xi as i128;
        let b = (den - xi) as i128;
        proof {
            let ai = xi as int;
            let bi = den - xi;
            lemma_power_step(ai, 0);
            lemma_power_step(bi, 0);
            assert(binom(1, 0) == 1);
            assert(binom(0, 0) == 1 && binom(0, 1) == 0);
            assert(binom(1, 1) == 1);
            assert(bernstein_scaled(1, 0, ai, bi) == 1 * 1 * bi);
            assert(bernstein_scaled(1, 1, ai, bi) == 1 * ai * 1);
        }
        let w = vec![b, a];
        assert forall|i: int| 0 <= i < w@.len() implies #[trigger] w@[i] == bernstein_scaled(self.deg(), i as nat, xi as int, den - xi) by {
            assert(i == 0 || i == 1);
        }
        self.combine(&w, xi, den, output);
    }

    /// The closed form for degree two:
    /// `(den - xi)^2 * p0 + 2 * xi * (den - xi) * p1 + xi^2 * p2`.
    pub fn evaluate_direct_quadratic(&self, xi: u64, den: u64, output: &mut Point<SIZE>)
        requires
            self.wf(),
            old(output).wf(),
            self.deg() == 2,
            xi <= den,
            self.fits(den as int),
            power(den as int, 2) <= u64::MAX,
        ensures
            final(output).wf(),
            forall|k: int| 0 <= k < SIZE ==> #[trigger] final(output)@[k] == self.direct_coord(k, xi as int, den as int),
    {
        let ghost ai = xi as int;
        let ghost bi = den - xi;
        proof {
            lemma_small_powers(ai, bi);
            lemma_small_binoms();
            lemma_bernstein_total_mono(2, ai, bi, 3);
            lemma_power_step(den as int, 0);
            lemma_power_step(den as int, 1);
            assert(bernstein_scaled(2, 0, ai, bi) == 1 * 1 * (bi * bi));
            assert(bernstein_scaled(2, 1, ai, bi) == 2 * ai * bi);
            assert(bernstein_scaled(2, 2, ai, bi) == 1 * (ai * ai) * 1);
            assert(2 * ai * bi == 2 * (ai * bi)) by (nonlinear_arith);
        }
        let a = xi as u128;
        let b = (den - xi) as u128;
        let w0 = (b * b) as i128;
        let w1 = (2 * (a * b)) as i128;
        let w2 = (a * a) as i128;
        let w = vec![w0, w1, w2];
        self.combine(&w, xi, den, output);
    }

    /// The closed form for degree three:
    /// `(den - xi)^3 * p0 + 3 * xi * (den - xi)^2 * p1
    ///  + 3 * xi^2 * (den - xi) * p2 + xi^3 * p3`.
    pub fn evaluate_direct_cubic(&self, xi: u64, den: u64, output: &mut Point<SIZE>)
        requires
            self.wf(),
            old(output).wf(),
            self.deg() == 3,
            xi <= den,
            self.fits(den as int),
            power(den as int, 3) <= u64::MAX,
        ensures
            final(output).wf(),
            forall|k: int| 0 <= k < SIZE ==> #[trigger] final(output)@[k] == self.direct_coord(k, xi as int, den as int),
    {
        let ghost ai = xi as int;
        let ghost bi = den - xi;
        proof {
            lemma_small_powers(ai, bi);
            lemma_small_binoms();
            lemma_bernstein_total_mono(3, ai, bi, 4);
            lemma_power_step(den as int, 0);
            lemma_power_step(den as int, 1);
            lemma_power_step(den as int, 2);
            assert(bernstein_scaled(3, 0, ai, bi) == 1 * 1 * (bi * (bi * bi)));
            assert(bernstein_scaled(3, 1, ai, bi) == 3 * ai * (bi * bi));
            assert(bernstein_scaled(3, 2, ai, bi) == 3 * (ai * ai) * bi);
            assert(bernstein_scaled(3, 3, ai, bi) == 1 * (ai * (ai * ai)) * 1);
            assert(3 * ai * (bi * bi) == 3 * (ai * (bi * bi))) by (nonlinear_arith);
            assert(3 * (ai * ai) * bi == 3 * (bi * (ai * ai))) by (nonlinear_arith);
            assert(0 <= ai * (bi * bi) <= 3 * (ai * (bi * bi))) by (nonlinear_arith)
                requires
                    0 <= ai,
                    0 <= bi,
            ;
            assert(0 <= bi * (ai * ai) <= 3 * (bi * (ai * ai))) by (nonlinear_arith)
                requires
                    0 <= ai,
                    0 <= bi,
            ;
            assert(0 <= bi * bi && 0 <= ai * ai && 0 <= ai * bi) by (nonlinear_arith)
                requires
                    0 <= ai,
                    0 <= bi,
            ;
            assert(ai * ai <= 0xffff_ffff_ffff_ffff_ffff_ffff_ffff_ffff && bi * bi <= 0xffff_ffff_ffff_ffff_ffff_ffff_ffff_ffff) by (nonlinear_arith)
                requires
                    0 <= ai <= 0xffff_ffff_ffff_ffff,
                    0 <= bi <= 0xffff_ffff_ffff_ffff,
            ;
        }
        let a = xi as u128;
        let b = (den - xi) as u128;
        let bb = b * b;
        let aa = a * a;
        let w0 = (b * bb) as i128;
        let w1 = (3 * (a * bb)) as i128;
        let w2 = (3 * (b * aa)) as i128;
        let w3 = (a * aa) as i128;
        let w = vec![w0, w1, w2, w3];
        self.combine(&w, xi, den, output);
    }

    /// Coordinate `k` of the curve at `xi / den`, scaled by `den^degree`, by
    /// De Casteljau's algorithm.
    fn de_casteljau_coord(&self, k: usize, xi: u64, den: u64) -> (r: i64)
        requires
            self.wf(),
            k < SIZE,
            xi <= den,
            self.fits(den as int),
        ensures
            r == self.casteljau_coord(k as int, xi as int, den as int),
    {
        let n = self.p.len() - 1;
        let ghost col = coord_seq(self.p@, k as int);
        let ghost ai = xi as int;
        let ghost bi = den - xi;
        let a = xi as i128;
        let b = (den - xi) as i128;
        let mut q: Vec<i128> = Vec::new();
        let mut i: usize = 0;
        while i <= n
            invariant
                i <= n + 1,
                n + 1 == self.p@.len(),
                k < SIZE,
                self.wf(),
                col == coord_seq(self.p@, k as int),
                q@.len() == i,
                forall|t: int| 0 <= t < i ==> #[trigger] q@[t] == col[t],
            decreases n + 1 - i,
        {
            let x = self.p[i].value(k);
            q.push(x as i128);
            i = i + 1;
        }
        let ghost mut cur: Seq<int> = col;
        proof {
            assert forall|t: int| 0 <= t < cur.len() implies #[trigger] abs_int(cur[t]) * power(den as int, (n - 0) as nat) <= i64::MAX by {
                assert(cur[t] == self.p@[t]@[k as int]);
            }
        }
        let mut level: usize = 0;
        while level < n
            invariant
                level <= n,
                n + 1 == self.p@.len(),
                a == ai,
                b == bi,
                0 <= ai,
                0 <= bi,
                ai + bi == den,
                den >= 1,
                den <= u64::MAX,
                cur.len() == n + 1 - level,
                q@.len() == n + 1,
                forall|t: int| 0 <= t < cur.len() ==> #[trigger] q@[t] == cur[t],
                casteljau(cur, ai, bi) == casteljau(col, ai, bi),
                forall|t: int| 0 <= t < cur.len() ==> #[trigger] abs_int(cur[t]) * power(den as int, (n - level) as nat) <= i64::MAX,
            decreases n - level,
        {
            let ghost next = lerp_seq(cur, ai, bi);
            let ghost e = (n - level - 1) as nat;
            proof {
                assert(casteljau(cur, ai, bi) == casteljau(next, ai, bi));
                lemma_power_mono_exp(den as int, 0, (e + 1) as nat);
            }
            let m = n - level;
            let mut i: usize = 0;
            while i < m
                invariant
                    i <= m,
                    m == n - level,
                    m + 1 == cur.len(),
                    next == lerp_seq(cur, ai, bi),
                    e + 1 == m,
                    a == ai,
                    b == bi,
                    0 <= ai,
                    0 <= bi,
                    ai + bi == den,
                    den >= 1,
                    den <= u64::MAX,
                    power(den as int, e + 1) >= 1,
                    q@.len() == n + 1,
                    forall|t: int| 0 <= t < i ==> #[trigger] q@[t] == next[t],
                    forall|t: int| i <= t < cur.len() ==> #[trigger] q@[t] == cur[t],
                    forall|t: int| 0 <= t < cur.len() ==> #[trigger] abs_int(cur[t]) * power(den as int, e + 1) <= i64::MAX,
                    forall|t: int| 0 <= t < i ==> #[trigger] abs_int(next[t]) * power(den as int, e) <= i64::MAX,
                decreases m - i,
            {
                let x = q[i];
                let y = q[i + 1];
                proof {
                    lemma_lerp_bound(cur[i as int], cur[i + 1], ai, bi, den as int, e, i64::MAX as int);
                    let pw = power(den as int, e + 1);
                    assert(abs_int(x as int) <= i64::MAX) by (nonlinear_arith)
                        requires
                            abs_int(x as int) * pw <= i64::MAX,
                            pw >= 1,
                            abs_int(x as int) >= 0,
                    ;
                    assert(abs_int(y as int) <= i64::MAX) by (nonlinear_arith)
                        requires
                            abs_int(y as int) * pw <= i64::MAX,
                            pw >= 1,
                            abs_int(y as int) >= 0,
                    ;
                    assert(abs_int(b * x) <= 0xffff_ffff_ffff_ffff * 0x7fff_ffff_ffff_ffff) by (nonlinear_arith)
                        requires
                            0 <= b <= 0xffff_ffff_ffff_ffff,
                            abs_int(x as int) <= 0x7fff_ffff_ffff_ffff,
                    ;
                    assert(abs_int(a * y) <= 0xffff_ffff_ffff_ffff * 0x7fff_ffff_ffff_ffff) by (nonlinear_arith)
                        requires
                            0 <= a <= 0xffff_ffff_ffff_ffff,
                            abs_int(y as int) <= 0x7fff_ffff_ffff_ffff,
                    ;
                    lemma_power_mono_exp(den as int, 0, e);
                    let pe = power(den as int, e);
                    assert(abs_int(b * x + a * y) <= i64::MAX) by (nonlinear_arith)
                        requires
                            abs_int(b * x + a * y) * pe <= i64::MAX,
                            pe >= 1,
                            abs_int(b * x + a * y) >= 0,
                    ;
                }
                let v = b * x + a * y;
                q.set(i, v);
                i = i + 1;
            }
            proof {
                cur = next;
            }
            level = level + 1;
        }
        proof {
            assert(cur.len() == 1);
            assert((n - level) as nat == 0);
            assert(power(den as int, 0) == 1);
            assert(abs_int(cur[0]) * 1 <= i64::MAX);
            assert(q@[0] == cur[0]);
        }
        q[0] as i64
    }

    /// The point of the curve at `xi / den`, scaled by `den^degree`, by De
    /// Casteljau's algorithm.
    pub fn evaluate_de_casteljau(&self, xi: u64, den: u64) -> (r: Point<SIZE>)
        requires
            self.wf(),
            xi <= den,
            self.fits(den as int),
        ensures
            r.wf(),
            forall|k: int| 0 <= k < SIZE ==> #[trigger] r@[k] == self.casteljau_coord(k, xi as int, den as int),
    {
        let mut out = Point::<SIZE>::origin();
        let mut k: usize = 0;
        while k < SIZE
            invariant
                k <= SIZE,
                self.wf(),
                xi <= den,
                self.fits(den as int),
                out.wf(),
                forall|t: int| 0 <= t < k ==> #[trigger] out@[t] == self.casteljau_coord(t, xi as int, den as int),
            decreases SIZE - k,
        {
            let v = self.de_casteljau_coord(k, xi, den);
            out.set_value(k, v);
            k = k + 1;
        }
        out
    }
}

proof fn lemma_small_binoms()
    ensures
        binom(0, 0) == 1,
        binom(1, 0) == 1,
        binom(1, 1) == 1,
        binom(2, 0) == 1,
        binom(2, 1) == 2,
        binom(2, 2) == 1,
        binom(3, 0) == 1,
        binom(3, 1) == 3,
        binom(3, 2) == 3,
        binom(3, 3) == 1,
{
    assert(binom(0, 1) == 0);
    assert(binom(0, 2) == 0);
    assert(binom(1, 2) == 0);
    assert(binom(0, 3) == 0);
    assert(binom(1, 3) == 0);
    assert(binom(2, 3) == 0);
}

proof fn lemma_small_powers(a: int, b: int)
    ensures
        power(a, 0) == 1,
        power(a, 1) == a,
        power(a, 2) == a * a,
        power(a, 3) == a * (a * a),
        power(b, 0) == 1,
        power(b, 1) == b,
        power(b, 2) == b * b,
        power(b, 3) == b * (b * b),
{
    lemma_power_step(a, 0);
    lemma_power_step(a, 1);
    lemma_power_step(a, 2);
    lemma_power_step(b, 0);
    lemma_power_step(b, 1);
    lemma_power_step(b, 2);
}

} // verus!

//! Properties that relate the evaluators to one another.
use vstd::prelude::*;
use crate::bezier::BezierCurve;
use crate::bezier::coord_seq;
use crate::point::Point;
use crate::point::abs;
use crate::point::div_trunc;
use crate::poly::bernstein_scaled;
use crate::poly::bernstein_total;
use crate::poly::constant_seq;
use crate::poly::direct;
use crate::poly::lemma_bernstein_nonneg;
use crate::poly::lemma_bernstein_partition;
use crate::poly::lemma_casteljau_direct;
use crate::poly::lemma_direct_at_end;
use crate::poly::lemma_direct_at_start;
use crate::poly::power;
use crate::rational::RatBezierCurve;

verus! {

/// Partition of unity: at a parameter `xi / den` in `[0, 1]` every Bernstein
/// polynomial of degree `n` is non-negative, and together they sum to one
/// (scaled by `den^n`, they sum to `den^n`).
pub proof fn lemma_partition_of_unity(n: nat, xi: int, den: int)
    requires
        0 <= xi <= den,
    ensures
        forall|i: nat| i <= n ==> 0 <= #[trigger] bernstein_scaled(n, i, xi, den - xi),
        bernstein_total(n, xi, den - xi, n + 1) == power(den, n),
{
    assert forall|i: nat| i <= n implies 0 <= #[trigger] bernstein_scaled(n, i, xi, den - xi) by {
        lemma_bernstein_nonneg(n, i, xi, den - xi);
    }
    lemma_bernstein_partition(n, xi, den - xi);
}

/// The definition and De Casteljau's algorithm give the same point of a
/// curve at every parameter, and De Casteljau's algorithm gives the first
/// control point at `xi = 0` and the last at `xi = 1` (scaled by
/// `den^degree`).
pub proof fn lemma_direct_agrees_with_de_casteljau<const SIZE: usize>(c: &BezierCurve<SIZE>, xi: int, den: int)
    requires
        c.wf(),
    ensures
        forall|k: int| 0 <= k < SIZE ==> #[trigger] c.direct_coord(k, xi, den) == c.casteljau_coord(k, xi, den),
        forall|k: int| 0 <= k < SIZE ==> #[trigger] c.casteljau_coord(k, 0, den) == power(den, c.deg()) * c.p@[0]@[k],
        forall|k: int| 0 <= k < SIZE ==> #[trigger] c.casteljau_coord(k, den, den) == power(den, c.deg()) * c.p@[c.deg() as int]@[k],
{
    c.lemma_wf();
    assert forall|k: int| 0 <= k < SIZE implies #[trigger] c.direct_coord(k, xi, den) == c.casteljau_coord(k, xi, den) by {
        lemma_casteljau_direct(coord_seq(c.p@, k), xi, den - xi);
    }
    assert forall|k: int| 0 <= k < SIZE implies #[trigger] c.casteljau_coord(k, 0, den) == power(den, c.deg()) * c.p@[0]@[k] by {
        let col = coord_seq(c.p@, k);
        lemma_casteljau_direct(col, 0, den);
        lemma_direct_at_start(col, den, col.len());
    }
    assert forall|k: int| 0 <= k < SIZE implies #[trigger] c.casteljau_coord(k, den, den) == power(den, c.deg()) * c.p@[c.deg() as int]@[k] by {
        let col = coord_seq(c.p@, k);
        lemma_casteljau_direct(col, den, 0);
        lemma_direct_at_end(col, den, col.len());
    }
}

/// The homogeneous lift of `p` on the plane of weight `w`, as
/// `Point::to_homogeneous` computes it.
pub open spec fn homogeneous_of<const SIZE: usize>(p: Point<SIZE>, w: i64) -> Seq<i64> {
    Seq::new(SIZE as nat, |j: int| (p@[j] * w) as i64).push(w)
}

/// Round trip: lifting a point to homogeneous coordinates with a non-zero
/// weight and projecting it back gives the point again.
pub proof fn lemma_homogeneous_round_trip<const SIZE: usize>(p: Point<SIZE>, w: i64)
    requires
        p.wf(),
        w != 0,
        p.scale_fits(w as int),
    ensures
        Seq::new(SIZE as nat, |j: int| div_trunc(homogeneous_of(p, w)[j] as int, w as int) as i64) == p@,
{
    let h = homogeneous_of(p, w);
    assert forall|j: int| 0 <= j < SIZE implies #[trigger] div_trunc(h[j] as int, w as int) == p@[j] by {
        let x = p@[j] as int;
        let wi = w as int;
        assert(i64::MIN <= x * wi <= i64::MAX);
        assert(h[j] == x * wi);
        let ax = abs(x);
        let aw = abs(wi);
        assert(abs(x * wi) == ax * aw) by (nonlinear_arith)
            requires
                ax == abs(x),
                aw == abs(wi),
        ;
        assert(aw > 0);
        vstd::arithmetic::div_mod::lemma_div_multiples_vanish(ax, aw);
        assert(aw * ax == ax * aw) by (nonlinear_arith);
        assert((x * wi < 0) == ((x < 0) != (wi < 0)) || x == 0) by (nonlinear_arith)
            requires
                wi != 0,
        ;
        assert(x == 0 ==> x * wi == 0) by (nonlinear_arith);
    }
    assert(Seq::new(SIZE as nat, |j: int| div_trunc(h[j] as int, w as int) as i64) =~= p@);
}

/// A rational curve whose weights are all one evaluates as the ordinary
/// curve with the same control points: the homogeneous curve holds the
/// ordinary curve's values scaled by `den^degree`, with `den^degree` as the
/// last coordinate, so the projection gives the ordinary curve's point.
pub proof fn lemma_unit_weights<const S: usize, const H: usize>(
    r: &RatBezierCurve<S, H>,
    c: &BezierCurve<S>,
    xi: int,
    den: int,
)
    requires
        r.wf(),
        c.wf(),
        forall|i: int| 0 <= i < r.weights@.len() ==> #[trigger] r.weights@[i] == 1,
        c.p@.len() == r.p@.len(),
        forall|i: int| 0 <= i < c.p@.len() ==> (#[trigger] c.p@[i])@ == r.p@[i]@,
        0 <= xi <= den,
    ensures
        forall|k: int| 0 <= k < S ==> #[trigger] r.bez.direct_coord(k, xi, den) == c.direct_coord(k, xi, den),
        r.bez.direct_coord(S as int, xi, den) == power(den, c.deg()),
        forall|k: int| 0 <= k < S ==> #[trigger] div_trunc(r.bez.direct_coord(k, xi, den), r.bez.direct_coord(S as int, xi, den))
            == div_trunc(c.direct_coord(k, xi, den), power(den, c.deg())),
{
    c.lemma_wf();
    r.bez.lemma_wf();
    let n = c.deg();
    assert forall|k: int| 0 <= k < S implies #[trigger] r.bez.direct_coord(k, xi, den) == c.direct_coord(k, xi, den) by {
        assert(coord_seq(r.bez.p@, k) =~= coord_seq(c.p@, k)) by {
            assert forall|i: int| 0 <= i < c.p@.len() implies #[trigger] coord_seq(r.bez.p@, k)[i] == coord_seq(c.p@, k)[i] by {
                assert(r.bez.p@[i]@ == r.pw@[i]@);
                assert(r.pw@[i]@[k] == (r.p@[i]@[k] * 1) as i64);
            }
        }
    }
    assert(coord_seq(r.bez.p@, S as int) =~= constant_seq(n + 1, 1)) by {
        assert forall|i: int| 0 <= i < n + 1 implies #[trigger] coord_seq(r.bez.p@, S as int)[i] == 1 by {
            assert(r.bez.p@[i]@ == r.pw@[i]@);
            assert(r.pw@[i]@[S as int] == r.weights@[i]);
        }
    }
    lemma_partition_of_unity(n, xi, den);
    crate::poly::lemma_direct_sum_ones(n, xi, den - xi, n + 1);
}

} // verus!

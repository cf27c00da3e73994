//! The mathematics of Bernstein polynomials at a rational parameter.
//!
//! A parameter `xi = a / d` with `0 <= a <= d` is handled through the pair
//! `(a, b)` with `b = d - a`. Every quantity is scaled by `d^n`, so that it
//! stays an integer: `bernstein_scaled(n, i, a, b) == d^n * B(n, i)(xi)`.
use vstd::prelude::*;
use crate::factorial::factorial;

verus! {

/// `base^e`.
pub open spec fn power(base: int, e: nat) -> int
    decreases e,
{
    if e == 0 {
        1
    } else {
        base * power(base, (e - 1) as nat)
    }
}

/// The binomial coefficient `C(n, i)`, by Pascal's rule; zero for `i > n`.
pub open spec fn binom(n: nat, i: nat) -> nat
    decreases n,
{
    if i == 0 {
        1
    } else if n == 0 {
        0
    } else {
        binom((n - 1) as nat, (i - 1) as nat) + binom((n - 1) as nat, i)
    }
}

/// `d^n * C(n, i) * xi^i * (1 - xi)^(n - i)` for `xi = a / d`, `b = d - a`.
pub open spec fn bernstein_scaled(n: nat, i: nat, a: int, b: int) -> int {
    binom(n, i) * power(a, i) * power(b, (n - i) as nat)
}

/// `sum_{i < k} bernstein_scaled(n, i, a, b)`.
pub open spec fn bernstein_total(n: nat, a: int, b: int, k: nat) -> int
    decreases k,
{
    if k == 0 {
        0
    } else {
        bernstein_total(n, a, b, (k - 1) as nat) + bernstein_scaled(n, (k - 1) as nat, a, b)
    }
}

/// `sum_{i < k} bernstein_scaled(n, i, a, b) * p[i]`.
pub open spec fn direct_sum(p: Seq<int>, n: nat, a: int, b: int, k: nat) -> int
    decreases k,
{
    if k == 0 {
        0
    } else {
        direct_sum(p, n, a, b, (k - 1) as nat) + bernstein_scaled(n, (k - 1) as nat, a, b) * p[k - 1]
    }
}

/// The scaled value of the Bézier function with coefficients `p` (degree
/// `p.len() - 1`), by the definition: the Bernstein-weighted sum.
pub open spec fn direct(p: Seq<int>, a: int, b: int) -> int {
    direct_sum(p, (p.len() - 1) as nat, a, b, p.len())
}

/// One step of De Casteljau's algorithm: `q[i] = b * p[i] + a * p[i + 1]`.
pub open spec fn lerp_seq(p: Seq<int>, a: int, b: int) -> Seq<int> {
    Seq::new((p.len() - 1) as nat, |i: int| b * p[i] + a * p[i + 1])
}

/// The scaled value of the Bézier function with coefficients `p`, by De
/// Casteljau's algorithm.
pub open spec fn casteljau(p: Seq<int>, a: int, b: int) -> int
    decreases p.len(),
{
    if p.len() <= 1 {
        p[0]
    } else {
        casteljau(lerp_seq(p, a, b), a, b)
    }
}

/// Products of powers.
pub proof fn lemma_power_step(base: int, e: nat)
    ensures
        power(base, e + 1) == base * power(base, e),
        power(base, 0) == 1,
        power(base, 1) == base,
{
    assert(power(base, 1) == base * power(base, 0));
}

/// `0 <= base^e` for `0 <= base`, and `base^e <= d^e` for `base <= d`.
pub proof fn lemma_power_bounds(base: int, d: int, e: nat)
    requires
        0 <= base <= d,
    ensures
        0 <= power(base, e) <= power(d, e),
    decreases e,
{
    if e > 0 {
        lemma_power_bounds(base, d, (e - 1) as nat);
        let x = power(base, (e - 1) as nat);
        let y = power(d, (e - 1) as nat);
        assert(0 <= base * x <= d * y) by (nonlinear_arith)
            requires
                0 <= base <= d,
                0 <= x <= y,
        ;
    }
}

/// `d^e1 <= d^e2` for `1 <= d` and `e1 <= e2`.
pub proof fn lemma_power_mono_exp(d: int, e1: nat, e2: nat)
    requires
        1 <= d,
        e1 <= e2,
    ensures
        1 <= power(d, e1) <= power(d, e2),
    decreases e2,
{
    if e2 > 0 {
        if e1 == e2 {
            lemma_power_mono_exp(d, (e1 - 1) as nat, (e2 - 1) as nat);
        } else {
            lemma_power_mono_exp(d, e1, (e2 - 1) as nat);
        }
        let y = power(d, (e2 - 1) as nat);
        assert(y <= d * y) by (nonlinear_arith)
            requires
                1 <= d,
                1 <= y,
        ;
    }
}

/// `C(n, i) * i! * (n - i)! == n!` for `i <= n`.
pub proof fn lemma_binom_factorial(n: nat, i: nat)
    requires
        i <= n,
    ensures
        binom(n, i) * factorial(i) * factorial((n - i) as nat) == factorial(n),
    decreases n,
{
    assert(factorial(0) == 1);
    if i == 0 {
        assert(binom(n, 0) == 1);
        assert(factorial((n - 0) as nat) == factorial(n));
        assert(binom(n, i) * factorial(i) * factorial((n - i) as nat) == factorial(n));
    } else if i == n {
        lemma_binom_diag(n);
        assert((n - i) as nat == 0);
        assert(binom(n, i) * factorial(i) * factorial((n - i) as nat) == factorial(n));
    } else {
        let m = (n - 1) as nat;
        lemma_binom_factorial(m, (i - 1) as nat);
        lemma_binom_factorial(m, i);
        let c1 = binom(m, (i - 1) as nat);
        let c2 = binom(m, i);
        let fi1 = factorial((i - 1) as nat);
        let fmi = factorial((m - i) as nat);
        let fm = factorial(m);
        assert(factorial(i) == i * fi1);
        assert(factorial((n - i) as nat) == (n - i) * fmi);
        assert((m - (i - 1)) as nat == (n - i) as nat);
        assert(factorial(n) == n * fm);
        assert((c1 + c2) * (i * fi1) * ((n - i) * fmi) == n * fm) by (nonlinear_arith)
            requires
                c1 * fi1 * ((n - i) * fmi) == fm,
                c2 * (i * fi1) * fmi == fm,
                n == m + 1,
                1 <= i < n,
        ;
        assert(binom(n, i) == c1 + c2);
        assert(binom(n, i) * factorial(i) * factorial((n - i) as nat) == factorial(n));
    }
}

/// `C(n, n) == 1`, and `C(n, i) == 0` for `i > n`.
pub proof fn lemma_binom_diag(n: nat)
    ensures
        binom(n, n) == 1,
        forall|i: nat| i > n ==> #[trigger] binom(n, i) == 0,
    decreases n,
{
    if n > 0 {
        lemma_binom_diag((n - 1) as nat);
        assert forall|i: nat| i > n implies #[trigger] binom(n, i) == 0 by {
            assert(binom((n - 1) as nat, (i - 1) as nat) == 0);
            assert(binom((n - 1) as nat, i) == 0);
        }
        assert(binom((n - 1) as nat, n) == 0);
    } else {
        assert forall|i: nat| i > n implies #[trigger] binom(n, i) == 0 by {}
    }
}

/// One De Casteljau step leaves the direct value unchanged.
pub proof fn lemma_direct_lerp(p: Seq<int>, a: int, b: int)
    requires
        p.len() >= 2,
    ensures
        direct(p, a, b) == direct(lerp_seq(p, a, b), a, b),
{
    let n = (p.len() - 1) as nat;
    let l = lerp_seq(p, a, b);
    lemma_direct_lerp_partial(p, a, b, n);
    lemma_binom_diag((n - 1) as nat);
    lemma_binom_diag(n);
    let an = power(a, n);
    assert(power(b, 0) == 1);
    assert(direct_sum(p, n, a, b, n + 1) == direct_sum(p, n, a, b, n) + bernstein_scaled(n, n, a, b) * p[n as int]);
    assert(bernstein_scaled(n, n, a, b) == 1 * an * 1);
    assert(bernstein_scaled((n - 1) as nat, (n - 1) as nat, a, b) * 0 == 0);
    assert(binom((n - 1) as nat, (n - 1) as nat) * power(a, n) * power(b, (n - n) as nat) * p[n as int] == an * p[n as int]);
}

proof fn lemma_direct_lerp_partial(p: Seq<int>, a: int, b: int, k: nat)
    requires
        p.len() >= 2,
        1 <= k <= p.len() - 1,
    ensures
        ({
            let n = (p.len() - 1) as nat;
            direct_sum(lerp_seq(p, a, b), (n - 1) as nat, a, b, k) == direct_sum(p, n, a, b, k)
                + binom((n - 1) as nat, (k - 1) as nat) * power(a, k) * power(b, (n - k) as nat) * p[k as int]
        }),
    decreases k,
{
    let n = (p.len() - 1) as nat;
    let m = (n - 1) as nat;
    let l = lerp_seq(p, a, b);
    if k == 1 {
        lemma_power_step(a, 0);
        lemma_power_step(b, m);
        assert(direct_sum(l, m, a, b, 0) == 0);
        assert(direct_sum(p, n, a, b, 0) == 0);
        assert(binom(m, 0) == 1 && binom(n, 0) == 1);
        let bm = power(b, m);
        assert(power(b, (n - 0) as nat) == b * bm);
        assert(power(b, (m - 0) as nat) == bm);
        assert(l[0] == b * p[0] + a * p[1]);
        assert(bernstein_scaled(m, 0, a, b) == 1 * 1 * bm);
        assert(bernstein_scaled(n, 0, a, b) == 1 * 1 * (b * bm));
        assert(bm * (b * p[0] + a * p[1]) == (b * bm) * p[0] + a * bm * p[1]) by (nonlinear_arith);
        assert((n - 1) as nat == m);
        assert(binom(m, 0) * power(a, 1) * power(b, (n - 1) as nat) * p[1] == a * bm * p[1]);
    } else {
        let j = (k - 1) as nat;
        lemma_direct_lerp_partial(p, a, b, j);
        // direct_sum(l, m, k) = direct_sum(l, m, j) + bern(m, j) * l[j]
        let cprev = binom(m, (j - 1) as nat);
        let cj = binom(m, j);
        let aj = power(a, j);
        let bk = power(b, (n - k) as nat);
        let pj = p[j as int];
        let pk = p[k as int];
        lemma_power_step(a, j);
        lemma_power_step(b, (n - k) as nat);
        assert((n - j) as nat == (n - k) as nat + 1);
        assert((m - j) as nat == (n - k) as nat);
        assert(power(b, (n - j) as nat) == b * bk);
        assert(power(a, k) == a * aj);
        assert(l[j as int] == b * pj + a * pk);
        assert(binom(n, j) == cprev + cj);
        assert(bernstein_scaled(m, j, a, b) == cj * aj * bk);
        assert(bernstein_scaled(n, j, a, b) == (cprev + cj) * aj * (b * bk));
        let t = aj * bk;
        let y = t * b * pj;
        let z = t * a * pk;
        lemma_regroup(cprev as int, aj, b, bk, pj);
        lemma_regroup((cprev + cj) as int, aj, b, bk, pj);
        lemma_regroup(cj as int, aj, a, bk, pk);
        lemma_split(cj as int, aj, bk, b, pj, a, pk);
        assert((cprev + cj) * y == cprev * y + cj * y) by (nonlinear_arith);
    }
}

proof fn lemma_regroup(c: int, x: int, y: int, z: int, w: int)
    ensures
        c * x * (y * z) * w == c * (x * z * y * w),
        c * (y * x) * z * w == c * (x * z * y * w),
{
    assert(c * x * (y * z) * w == c * (x * z * y * w)) by (nonlinear_arith);
    assert(c * (y * x) * z * w == c * (x * z * y * w)) by (nonlinear_arith);
}

proof fn lemma_split(c: int, x: int, z: int, b: int, p: int, a: int, q: int)
    ensures
        c * x * z * (b * p + a * q) == c * (x * z * b * p) + c * (x * z * a * q),
{
    broadcast use vstd::arithmetic::mul::lemma_mul_is_associative;

    let u = x * z;
    let v = c * u;
    vstd::arithmetic::mul::lemma_mul_is_distributive_add(v, b * p, a * q);
    assert(c * x * z == v);
    assert(v * (b * p) == c * (u * b * p));
    assert(v * (a * q) == c * (u * a * q));
}

/// De Casteljau's algorithm and the definition agree.
pub proof fn lemma_casteljau_direct(p: Seq<int>, a: int, b: int)
    requires
        p.len() >= 1,
    ensures
        casteljau(p, a, b) == direct(p, a, b),
    decreases p.len(),
{
    if p.len() == 1 {
        lemma_power_step(a, 0);
        assert(direct_sum(p, 0, a, b, 0) == 0);
        assert(bernstein_scaled(0, 0, a, b) == 1);
    } else {
        lemma_direct_lerp(p, a, b);
        lemma_casteljau_direct(lerp_seq(p, a, b), a, b);
    }
}

/// The sequence of `len` copies of `c`.
pub open spec fn constant_seq(len: nat, c: int) -> Seq<int> {
    Seq::new(len, |i: int| c)
}

proof fn lemma_casteljau_constant(len: nat, c: int, a: int, b: int)
    requires
        len >= 1,
    ensures
        casteljau(constant_seq(len, c), a, b) == power(a + b, (len - 1) as nat) * c,
    decreases len,
{
    let s = constant_seq(len, c);
    if len == 1 {
        assert(power(a + b, 0) == 1);
    } else {
        let m = (len - 1) as nat;
        assert(lerp_seq(s, a, b) =~= constant_seq(m, (a + b) * c)) by {
            assert forall|i: int| 0 <= i < m implies #[trigger] lerp_seq(s, a, b)[i] == (a + b) * c by {
                assert(b * c + a * c == (a + b) * c) by (nonlinear_arith);
            }
        }
        lemma_casteljau_constant(m, (a + b) * c, a, b);
        let e = (m - 1) as nat;
        lemma_power_step(a + b, e);
        assert(power(a + b, e) * ((a + b) * c) == ((a + b) * power(a + b, e)) * c) by (nonlinear_arith);
    }
}

pub proof fn lemma_direct_sum_ones(n: nat, a: int, b: int, k: nat)
    requires
        k <= n + 1,
    ensures
        direct_sum(constant_seq(n + 1, 1), n, a, b, k) == bernstein_total(n, a, b, k),
    decreases k,
{
    if k > 0 {
        lemma_direct_sum_ones(n, a, b, (k - 1) as nat);
    }
}

/// Every scaled Bernstein value is non-negative for `0 <= a`, `0 <= b`.
pub proof fn lemma_bernstein_nonneg(n: nat, i: nat, a: int, b: int)
    requires
        0 <= a,
        0 <= b,
    ensures
        0 <= bernstein_scaled(n, i, a, b),
{
    lemma_power_bounds(a, a, i);
    lemma_power_bounds(b, b, (n - i) as nat);
    let c = binom(n, i) as int;
    let x = power(a, i);
    let y = power(b, (n - i) as nat);
    assert(0 <= c * x * y) by (nonlinear_arith)
        requires
            0 <= c,
            0 <= x,
            0 <= y,
    ;
}

/// The scaled Bernstein values of degree `n` add up to `(a + b)^n`.
pub proof fn lemma_bernstein_partition(n: nat, a: int, b: int)
    ensures
        bernstein_total(n, a, b, n + 1) == power(a + b, n),
{
    lemma_direct_sum_ones(n, a, b, n + 1);
    lemma_casteljau_direct(constant_seq(n + 1, 1), a, b);
    lemma_casteljau_constant(n + 1, 1, a, b);
}

/// Partial sums of the scaled Bernstein values grow with `k` and stay below
/// the full sum.
pub proof fn lemma_bernstein_total_mono(n: nat, a: int, b: int, k: nat)
    requires
        0 <= a,
        0 <= b,
        k <= n + 1,
    ensures
        0 <= bernstein_total(n, a, b, k) <= power(a + b, n),
        forall|i: nat| i < k ==> #[trigger] bernstein_scaled(n, i, a, b) <= bernstein_total(n, a, b, k),
    decreases n + 1 - k,
{
    if k == n + 1 {
        lemma_bernstein_partition(n, a, b);
        lemma_bernstein_total_prefix(n, a, b, k);
    } else {
        lemma_bernstein_total_mono(n, a, b, k + 1);
        lemma_bernstein_nonneg(n, k, a, b);
        lemma_bernstein_total_prefix(n, a, b, k);
    }
}

proof fn lemma_bernstein_total_prefix(n: nat, a: int, b: int, k: nat)
    requires
        0 <= a,
        0 <= b,
    ensures
        0 <= bernstein_total(n, a, b, k),
        forall|i: nat| i < k ==> #[trigger] bernstein_scaled(n, i, a, b) <= bernstein_total(n, a, b, k),
    decreases k,
{
    if k > 0 {
        lemma_bernstein_total_prefix(n, a, b, (k - 1) as nat);
        lemma_bernstein_nonneg(n, (k - 1) as nat, a, b);
    }
}

/// `|direct_sum(p, n, a, b, k)| * d <= m * bernstein_total(n, a, b, k)` where
/// every coefficient satisfies `|p[i]| * d <= m`.
pub proof fn lemma_direct_sum_bound(p: Seq<int>, n: nat, a: int, b: int, k: nat, d: int, m: int)
    requires
        0 <= a,
        0 <= b,
        0 <= d,
        k <= p.len(),
        forall|i: int| 0 <= i < p.len() ==> #[trigger] abs_int(p[i]) * d <= m,
    ensures
        abs_int(direct_sum(p, n, a, b, k)) * d <= m * bernstein_total(n, a, b, k),
    decreases k,
{
    if k > 0 {
        let j = (k - 1) as nat;
        lemma_direct_sum_bound(p, n, a, b, j, d, m);
        lemma_bernstein_nonneg(n, j, a, b);
        let s = direct_sum(p, n, a, b, j);
        let t = bernstein_scaled(n, j, a, b);
        let x = p[j as int];
        let tot = bernstein_total(n, a, b, j);
        let as_ = abs_int(s);
        let ax = abs_int(x);
        assert(ax * d <= m);
        let tx = t * x;
        let tax = t * ax;
        assert(tx == tax || tx == -tax) by (nonlinear_arith)
            requires
                tx == t * x,
                tax == t * ax,
                ax == x || ax == -x,
        ;
        let r = abs_int(s + tx);
        assert(r <= as_ + tax);
        assert(r * d <= as_ * d + tax * d) by (nonlinear_arith)
            requires
                r <= as_ + tax,
                0 <= d,
        ;
        assert(tax * d <= t * m) by (nonlinear_arith)
            requires
                tax == t * ax,
                ax * d <= m,
                0 <= t,
        ;
        assert(m * (tot + t) == m * tot + t * m) by (nonlinear_arith);
        assert(direct_sum(p, n, a, b, k) == s + tx);
        assert(bernstein_total(n, a, b, k) == tot + t);
        assert(r * d <= m * (tot + t));
    } else {
        vstd::arithmetic::mul::lemma_mul_by_zero_is_zero(d);
        vstd::arithmetic::mul::lemma_mul_by_zero_is_zero(m);
    }
}

/// The absolute value.
pub open spec fn abs_int(x: int) -> int {
    if x < 0 {
        -x
    } else {
        x
    }
}

/// At `xi = 0` the value is `b^n` times the first coefficient.
pub proof fn lemma_direct_at_start(p: Seq<int>, b: int, k: nat)
    requires
        1 <= k <= p.len(),
    ensures
        direct_sum(p, (p.len() - 1) as nat, 0, b, k) == power(b, (p.len() - 1) as nat) * p[0],
    decreases k,
{
    let n = (p.len() - 1) as nat;
    if k == 1 {
        assert(direct_sum(p, n, 0, b, 0) == 0);
        assert(power(0, 0) == 1);
        assert((n - 0) as nat == n);
        assert(binom(n, 0) == 1);
        assert(bernstein_scaled(n, 0, 0, b) == 1 * 1 * power(b, n));
    } else {
        lemma_direct_at_start(p, b, (k - 1) as nat);
        let j = (k - 1) as nat;
        assert(power(0, j) == 0 * power(0, (j - 1) as nat));
        let c = binom(n, j) as int;
        let y = power(b, (n - j) as nat);
        vstd::arithmetic::mul::lemma_mul_by_zero_is_zero(c);
        vstd::arithmetic::mul::lemma_mul_by_zero_is_zero(y);
        assert(c * 0 * y == 0);
        assert(bernstein_scaled(n, j, 0, b) == 0);
    }
}

/// At `b = 0` (that is, `xi = 1`) the value is `a^n` times the last coefficient.
pub proof fn lemma_direct_at_end(p: Seq<int>, a: int, k: nat)
    requires
        1 <= p.len(),
        k <= p.len(),
    ensures
        direct_sum(p, (p.len() - 1) as nat, a, 0, k) == if k == p.len() {
            power(a, (p.len() - 1) as nat) * p[p.len() - 1]
        } else {
            0
        },
    decreases k,
{
    let n = (p.len() - 1) as nat;
    if k > 0 {
        lemma_direct_at_end(p, a, (k - 1) as nat);
        let j = (k - 1) as nat;
        if j < n {
            assert(power(0, (n - j) as nat) == 0 * power(0, (n - j - 1) as nat));
            let c = binom(n, j) as int;
            let x = power(a, j);
            vstd::arithmetic::mul::lemma_mul_by_zero_is_zero(c * x);
            assert(c * x * 0 == 0);
            assert(bernstein_scaled(n, j, a, 0) == 0);
        } else {
            lemma_binom_diag(n);
            assert(power(0, 0) == 1);
            assert((n - n) as nat == 0);
            assert(bernstein_scaled(n, n, a, 0) == 1 * power(a, n) * 1);
        }
    }
}

} // verus!

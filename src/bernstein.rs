//! Bernstein basis polynomials.
use vstd::prelude::*;
use crate::factorial::fact;
use crate::factorial::factorial;
use crate::factorial::lemma_factorial_mono;
use crate::poly::bernstein_scaled;
use crate::poly::lemma_bernstein_total_mono;
use crate::poly::lemma_binom_factorial;
use crate::poly::lemma_power_bounds;
use crate::poly::lemma_power_mono_exp;
use crate::poly::lemma_power_step;
use crate::poly::power;

verus! {

/// The largest degree whose Bernstein coefficients are computed from
/// factorials that fit an `i64`.
pub const MAX_DEGREE: u32 = 20;

/// `base^e`, where it fits a `u64`.
pub fn pow_u64(base: u64, e: u32) -> (r: u64)
    requires
        power(base as int, e as nat) <= u64::MAX,
    ensures
        r == power(base as int, e as nat),
{
    let mut acc: u64 = 1;
    let mut k: u32 = 0;
    while k < e
        invariant
            k <= e,
            acc == power(base as int, k as nat),
            power(base as int, e as nat) <= u64::MAX,
        decreases e - k,
    {
        proof {
            lemma_power_step(base as int, k as nat);
            if base >= 1 {
                lemma_power_mono_exp(base as int, (k + 1) as nat, e as nat);
            }
        }
        acc = acc * base;
        k = k + 1;
    }
    acc
}

/// The Bernstein basis polynomial of degree `n` and index `i`,
/// `B(n, i)(xi) = C(n, i) * xi^i * (1 - xi)^(n - i)`.
#[derive(Debug, Clone, Copy)]
pub struct Bernstein {
    n: u32,
    i: u32,
}

impl Bernstein {
    /// The degree.
    pub closed spec fn deg(&self) -> nat {
        self.n as nat
    }

    /// The index.
    pub closed spec fn idx(&self) -> nat {
        self.i as nat
    }

    /// The index does not exceed the degree.
    pub open spec fn wf(&self) -> bool {
        self.idx() <= self.deg()
    }

    /// The `i`-th Bernstein basis polynomial of degree `n`; `None` where the
    /// index exceeds the degree.
    pub fn create(n: u32, i: u32) -> (r: Option<Bernstein>)
        ensures
            r is Some <==> i <= n,
            r matches Some(b) ==> b.wf() && b.deg() == n && b.idx() == i,
    {
        if i > n {
            return None;
        }
        Some(Bernstein { n, i })
    }

    /// The degree.
    pub fn degree(&self) -> (r: u32)
        ensures
            r == self.deg(),
    {
        self.n
    }

    /// The index.
    pub fn index(&self) -> (r: u32)
        ensures
            r == self.idx(),
    {
        self.i
    }

    /// `den^n * B(n, i)(xi / den)`, that is
    /// `C(n, i) * xi^i * (den - xi)^(n - i)`: the value of the polynomial at
    /// the rational parameter `xi / den`, scaled to an integer.
    pub fn evaluate_scaled(&self, xi: u64, den: u64) -> (r: u64)
        requires
            self.wf(),
            self.deg() <= MAX_DEGREE,
            1 <= den,
            xi <= den,
            power(den as int, self.deg()) <= u64::MAX,
        ensures
            r == bernstein_scaled(self.deg(), self.idx(), xi as int, den - xi),
    {
        let n = self.n;
        let i = self.i;
        let fnn = fact(n as i32);
        let fi = fact(i as i32);
        let fni = fact((n - i) as i32);
        proof {
            lemma_binom_factorial(n as nat, i as nat);
            lemma_factorial_mono(n as nat, 20);
            crate::factorial::lemma_factorial_positive(n as nat);
            crate::factorial::lemma_factorial_positive(i as nat);
            crate::factorial::lemma_factorial_positive((n - i) as nat);
            let c = crate::poly::binom(n as nat, i as nat) as int;
            assert(fi * fni <= c * fi * fni) by (nonlinear_arith)
                requires
                    c * fi * fni == fnn,
                    fi >= 1,
                    fni >= 1,
                    fnn >= 1,
            ;
            assert(c * fi * fni == c * (fi * fni)) by (nonlinear_arith);
            assert(fi * fni > 0) by (nonlinear_arith)
                requires
                    fi >= 1,
                    fni >= 1,
            ;
            vstd::arithmetic::div_mod::lemma_div_multiples_vanish(c, fi * fni);
            assert((fi * fni) * c == c * (fi * fni)) by (nonlinear_arith);
        }
        let den_fact: u64 = (fi as u64) * (fni as u64);
        let c: u64 = (fnn as u64) / den_fact;
        proof {
            lemma_power_bounds(xi as int, den as int, i as nat);
            lemma_power_bounds((den - xi) as int, den as int, (n - i) as nat);
            lemma_power_mono_exp(den as int, i as nat, n as nat);
            lemma_power_mono_exp(den as int, (n - i) as nat, n as nat);
        }
        let pa = pow_u64(xi, i);
        let pb = pow_u64(den - xi, n - i);
        proof {
            assert(factorial(20) == 2432902008176640000) by {
                crate::factorial::lemma_factorial_table();
            }
            assert((c as int) * (pa as int) <= 2432902008176640000 * 0xffff_ffff_ffff_ffff) by (nonlinear_arith)
                requires
                    c <= 2432902008176640000,
                    pa <= 0xffff_ffff_ffff_ffff,
            ;
            lemma_bernstein_total_mono(n as nat, xi as int, (den - xi) as int, (n + 1) as nat);
            assert(bernstein_scaled(n as nat, i as nat, xi as int, den - xi) <= power(den as int, n as nat));
        }
        let t: u128 = (c as u128) * (pa as u128);
        let r: u128 = t * (pb as u128);
        r as u64
    }
}

} // verus!

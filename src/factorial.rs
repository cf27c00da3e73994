use vstd::prelude::*;

verus! {

/// `n!` as a mathematical integer.
pub open spec fn factorial(n: nat) -> nat
    decreases n,
{
    if n == 0 {
        1
    } else {
        n * factorial((n - 1) as nat)
    }
}

/// The largest `n` whose factorial fits an `i64`.
pub const MAX_FACT_ARG: i32 = 20;

pub proof fn lemma_factorial_positive(n: nat)
    ensures
        factorial(n) >= 1,
    decreases n,
{
    if n > 0 {
        lemma_factorial_positive((n - 1) as nat);
        assert(n * factorial((n - 1) as nat) >= 1) by (nonlinear_arith)
            requires
                n >= 1,
                factorial((n - 1) as nat) >= 1,
        ;
    }
}

/// Monotonicity of the factorial.
pub proof fn lemma_factorial_mono(m: nat, n: nat)
    requires
        m <= n,
    ensures
        factorial(m) <= factorial(n),
    decreases n,
{
    if m < n {
        lemma_factorial_mono(m, (n - 1) as nat);
        lemma_factorial_positive((n - 1) as nat);
        assert(factorial((n - 1) as nat) <= n * factorial((n - 1) as nat)) by (nonlinear_arith)
            requires
                n >= 1,
        ;
    }
}

/// The factorials up to `19!`.
pub proof fn lemma_factorial_table()
    ensures
        factorial(19) == 121645100408832000,
        factorial(20) == 2432902008176640000,
{
        assert(factorial(0) == 1);
        assert(factorial(1) == 1);
        assert(factorial(2) == 2);
        assert(factorial(3) == 6);
        assert(factorial(4) == 24);
        assert(factorial(5) == 120);
        assert(factorial(6) == 720);
        assert(factorial(7) == 5040);
        assert(factorial(8) == 40320);
        assert(factorial(9) == 362880);
        assert(factorial(10) == 3628800);
        assert(factorial(11) == 39916800);
        assert(factorial(12) == 479001600);
        assert(factorial(13) == 6227020800);
        assert(factorial(14) == 87178291200);
        assert(factorial(15) == 1307674368000);
        assert(factorial(16) == 20922789888000);
        assert(factorial(17) == 355687428096000);
        assert(factorial(18) == 6402373705728000);
        assert(factorial(19) == 121645100408832000);
        assert(factorial(20) == 2432902008176640000);
}

/// Computes the factorial `n!`, for `0 <= n <= 20`, where it fits an `i64`.
pub fn fact(n: i32) -> (r: i64)
    requires
        0 <= n <= MAX_FACT_ARG,
    ensures
        r == factorial(n as nat),
    decreases n,
{
    if n == 0 || n == 1 {
        return 1i64;
    }
    let prev = fact(n - 1);
    proof {
        lemma_factorial_mono((n - 1) as nat, 19);
        lemma_factorial_table();
        assert(n * prev <= 20 * 121645100408832000) by (nonlinear_arith)
            requires
                n <= 20,
                0 <= prev <= 121645100408832000,
        ;
    }
    (n as i64) * prev
}

} // verus!

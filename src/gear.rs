use vstd::prelude::*;

verus! {

/// `n!`.
pub open spec fn factorial(n: nat) -> nat
    decreases n,
{
    if n == 0 {
        1
    } else {
        n * factorial((n - 1) as nat)
    }
}

proof fn lemma_factorial_monotonic(m: nat, n: nat)
    requires
        m <= n,
    ensures
        1 <= factorial(m) <= factorial(n),
    decreases n,
{
    if n > 0 {
        if m < n {
            lemma_factorial_monotonic(m, (n - 1) as nat);
        } else {
            lemma_factorial_monotonic((n - 1) as nat, (n - 1) as nat);
        }
        assert(factorial((n - 1) as nat) <= n * factorial((n - 1) as nat)) by (nonlinear_arith)
            requires
                n >= 1,
                factorial((n - 1) as nat) >= 1,
        ;
    }
}

proof fn lemma_factorial_twenty()
    ensures
        factorial(0) == 1,
        factorial(1) == 1,
        factorial(20) == 2432902008176640000,
{
    assert(factorial(0) == 1);
    assert(factorial(1) == 1);
    assert(factorial(2) == 2);
    assert(factorial(3) == 6);
    assert(factorial(4) == 24);
    assert(factorial(5) == 120);
    assert(factorial(6) == 720);
    assert(factorial(7) == 5040);
    assert(factorial(8) == 40320);
    assert(factorial(9) == 362880);
    assert(factorial(10) == 3628800);
    assert(factorial(11) == 39916800);
    assert(factorial(12) == 479001600);
    assert(factorial(13) == 6227020800);
    assert(factorial(14) == 87178291200);
    assert(factorial(15) == 1307674368000);
    assert(factorial(16) == 20922789888000);
    assert(factorial(17) == 355687428096000);
    assert(factorial(18) == 6402373705728000);
    assert(factorial(19) == 121645100408832000);
    assert(factorial(20) == 2432902008176640000);
}

/// `n!` for `n` up to 20, the largest factorial that fits in a `u64`, and 0
/// for any larger `n`.
pub fn fac(n: u64) -> (r: u64)
    ensures
        n <= 20 ==> r == factorial(n as nat),
        n > 20 ==> r == 0,
    decreases n,
{
    if n <= 1 {
        proof {
            lemma_factorial_twenty();
        }
        1
    } else if n <= 20 {
        let f = fac(n - 1);
        proof {
            lemma_factorial_monotonic(n as nat, 20);
            lemma_factorial_twenty();
            assert(factorial(n as nat) == n * factorial((n - 1) as nat));
            assert((f as int) * (n as int) == (n as int) * (f as int)) by (nonlinear_arith);
        }
        f * n
    } else {
        0
    }
}

/// The state of a fifth-order Gear predictor: a quantity and its first five
/// time derivatives.
pub struct GearPredictor<T> {
    pub rs: [T; 6],
}

/// The predicted quantity and derivatives, awaiting correction.
pub struct GearCorrector<T> {
    pub predictions: [T; 6],
}

} // verus!

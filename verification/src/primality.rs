//! Deterministic primality testing by trial division.
//!
//! Primality of a solution is evaluated as part of a globally replicated state
//! transition, so every participant must compute the identical answer for the
//! same input. Trial division up to the square root is a fixed, published,
//! deterministic procedure with no probability of error.

use vstd::arithmetic::div_mod::*;
use vstd::prelude::*;

verus! {

/// A number is prime when it is at least 2 and no value from 2 up to (but
/// excluding) itself divides it.
pub open spec fn prime(n: int) -> bool {
    n >= 2 && forall|d: int| 2 <= d < n ==> #[trigger] (n % d) != 0
}

/// If no candidate in [2, d) divides n, and d * d exceeds n, then n has no
/// nontrivial divisor at all: in any divisor pair (k, n / k) one member lies
/// below the square root of n, hence below d.
proof fn lemma_no_divisor_below_sqrt_implies_prime(n: int, d: int)
    requires
        n >= 2,
        d >= 2,
        d * d > n,
        forall|k: int| 2 <= k < d ==> #[trigger] (n % k) != 0,
    ensures
        prime(n),
{
    assert forall|k: int| 2 <= k < n implies #[trigger] (n % k) != 0 by {
        if n % k == 0 && k >= d {
            let m = n / k;
            lemma_fundamental_div_mod(n, k);
            assert(n == k * m);
            assert(m >= 2) by (nonlinear_arith)
                requires
                    n == k * m,
                    2 <= k < n,
            ;
            assert(m < d) by (nonlinear_arith)
                requires
                    n == k * m,
                    k >= d,
                    d >= 2,
                    m >= 2,
                    d * d > n,
            ;
            lemma_mod_multiples_basic(k, m);
            assert(n % m == 0);
            assert(false);
        }
    };
}

/// Decide whether `number` is prime, by trial division.
pub fn is_prime(number: u128) -> (r: bool)
    ensures
        r == prime(number as int),
{
    if number < 2 {
        return false;
    }
    let mut d: u128 = 2;
    while d <= number / d
        invariant
            number >= 2,
            2 <= d,
            forall|k: int| 2 <= k < d ==> #[trigger] ((number as int) % k) != 0,
        decreases number - d,
    {
        if number % d == 0 {
            proof {
                let n = number as int;
                let di = d as int;
                lemma_fundamental_div_mod(n, di);
                assert(di < n) by (nonlinear_arith)
                    requires
                        n == di * (n / di) + n % di,
                        n % di == 0,
                        n / di >= di,
                        di >= 2,
                ;
                assert(!prime(n));
            }
            return false;
        }
        proof {
            let n = number as int;
            let di = d as int;
            lemma_div_is_ordered_by_denominator(n, 2, di);
            assert(n / 2 < u128::MAX);
        }
        d = d + 1;
    }
    proof {
        let n = number as int;
        let di = d as int;
        lemma_fundamental_div_mod(n, di);
        lemma_mod_bound(n, di);
        lemma_div_pos_is_pos(n, di);
        assert(di * di > n) by (nonlinear_arith)
            requires
                n == di * (n / di) + n % di,
                0 <= n % di < di,
                di >= n / di + 1,
                n / di >= 0,
                di >= 2,
        ;
        lemma_no_divisor_below_sqrt_implies_prime(n, di);
    }
    true
}

} // verus!

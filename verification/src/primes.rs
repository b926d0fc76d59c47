//! Prime enumeration, in the two classic flavours: trial division against
//! the primes already found, and a lazily advanced sieve. Both enumerators
//! report exactly the primes up to their bound, in increasing order.

pub mod errors;
pub mod naive;
pub mod options;
pub mod sieve;

use vstd::prelude::*;

verus! {

/// Primality over the mathematical naturals: at least two, and divisible
/// by no smaller value from two up.
pub open spec fn is_prime(n: nat) -> bool {
    n >= 2 && forall|d: nat| 2 <= d < n ==> #[trigger] (n % d) != 0
}

/// Divisibility carries through: when p divides d and d divides n, p
/// divides n.
proof fn lemma_mod_transitive(p: nat, d: nat, n: nat)
    requires
        1 <= p,
        1 <= d,
        d % p == 0,
        n % d == 0,
    ensures
        n % p == 0,
{
    let ni = n as int;
    let di = d as int;
    let pi = p as int;
    assert(ni == di * (ni / di)) by {
        vstd::arithmetic::div_mod::lemma_fundamental_div_mod(ni, di);
    }
    assert(di == pi * (di / pi)) by {
        vstd::arithmetic::div_mod::lemma_fundamental_div_mod(di, pi);
    }
    assert(ni == pi * ((di / pi) * (ni / di))) by {
        vstd::arithmetic::mul::lemma_mul_is_associative(pi, di / pi, ni / di);
    }
    assert(ni == ((di / pi) * (ni / di)) * pi) by {
        vstd::arithmetic::mul::lemma_mul_is_commutative(pi, (di / pi) * (ni / di));
    }
    assert((((di / pi) * (ni / di)) * pi) % pi == 0) by {
        vstd::arithmetic::div_mod::lemma_mod_multiples_basic((di / pi) * (ni / di), pi);
    }
}

/// Every composite number from two up has a prime divisor smaller than
/// itself: the smallest nontrivial divisor is such a prime.
pub proof fn lemma_composite_has_prime_factor(n: nat)
    requires
        n >= 2,
        !is_prime(n),
    ensures
        exists|p: nat| is_prime(p) && 2 <= p < n && #[trigger] (n % p) == 0,
    decreases n,
{
    assert(exists|d: nat| 2 <= d < n && #[trigger] (n % d) == 0);
    let d = choose|d: nat| 2 <= d < n && #[trigger] (n % d) == 0;
    if is_prime(d) {
        assert(is_prime(d) && 2 <= d < n && n % d == 0);
    } else {
        lemma_composite_has_prime_factor(d);
        let p = choose|p: nat| is_prime(p) && 2 <= p < d && #[trigger] (d % p) == 0;
        lemma_mod_transitive(p, d, n);
        assert(is_prime(p) && 2 <= p < n && n % p == 0);
    }
}

} // verus!

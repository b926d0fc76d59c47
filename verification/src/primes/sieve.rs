//! The sieve enumerator: a strike-list over all candidates up to the
//! bound, advanced lazily. When a candidate is reached unstruck it is
//! prime, is reported, and strikes all of its proper multiples; every
//! composite has a smaller prime factor, whose strike already covered it.

use vstd::prelude::*;
use crate::primes::{is_prime, lemma_composite_has_prime_factor};

verus! {

/// Whether `m` is struck once every prime below `bound` has struck its
/// proper multiples: zero, one, and every proper multiple of such a prime.
pub open spec fn struck(m: nat, bound: nat) -> bool {
    m < 2 || exists|p: nat| is_prime(p) && p < bound && #[trigger] (m % p) == 0 && p != m
}

/// A prime enumerator over a lazily advanced sieve.
pub struct Primes {
    /// Candidates above this bound are never examined.
    pub max: u64,
    /// The next candidate to examine.
    pub next: u64,
    /// One strike mark per candidate from zero to `max`.
    pub eliminated: Vec<bool>,
}

/// Between two multiples of `n` there is a gap of `n`: a multiple below
/// `c + n` is at most `c`.
proof fn lemma_multiple_gap(n: nat, a: nat, c: nat)
    requires
        n >= 1,
        a % n == 0,
        c % n == 0,
        a < c + n,
    ensures
        a <= c,
{
    let ai = a as int;
    let ci = c as int;
    let ni = n as int;
    assert(ai == ni * (ai / ni)) by {
        vstd::arithmetic::div_mod::lemma_fundamental_div_mod(ai, ni);
    }
    assert(ci == ni * (ci / ni)) by {
        vstd::arithmetic::div_mod::lemma_fundamental_div_mod(ci, ni);
    }
    assert(ai / ni <= ci / ni) by (nonlinear_arith)
        requires
            ai == ni * (ai / ni),
            ci == ni * (ci / ni),
            ai < ci + ni,
            ni >= 1,
    ;
    assert(ai <= ci) by (nonlinear_arith)
        requires
            ai == ni * (ai / ni),
            ci == ni * (ci / ni),
            ai / ni <= ci / ni,
            ni >= 1,
    ;
}

impl Primes {
    /// The enumerator's invariant: the strike list covers zero to `max`,
    /// and a candidate is struck exactly when some prime below `next` has
    /// a proper multiple there (or it is zero or one).
    pub open spec fn wf(self) -> bool {
        &&& 1 <= self.next
        &&& 1 <= self.max < u64::MAX
        &&& self.max + 1 <= usize::MAX
        &&& self.eliminated@.len() == self.max + 1
        &&& forall|m: int|
            0 <= m <= self.max ==> ((#[trigger] self.eliminated@[m]) <==> struck(
                m as nat,
                self.next as nat,
            ))
    }

    /// The next prime at or above `next` and at most `max`, striking its
    /// multiples and stepping the enumerator past it; or nothing when no
    /// prime remains, leaving the enumerator as it was.
    pub fn next(&mut self) -> (r: Option<u64>)
        requires
            old(self).wf(),
        ensures
            final(self).wf(),
            final(self).max == old(self).max,
            r matches Some(p) ==> {
                &&& is_prime(p as nat)
                &&& old(self).next <= p <= old(self).max
                &&& forall|q: u64| old(self).next <= q < p ==> !is_prime(q as nat)
                &&& final(self).next == p + 1
            },
            r is None ==> {
                &&& forall|q: u64| old(self).next <= q <= old(self).max ==> !is_prime(q as nat)
                &&& *final(self) == *old(self)
            },
    {
        let mut n = self.next;
        while n <= self.max
            invariant
                *self == *old(self),
                self.wf(),
                self.next <= n,
                forall|q: u64| self.next <= q < n ==> !is_prime(q as nat),
            decreases self.max + 1 - n,
        {
            if !self.eliminated[n as usize] {
                proof {
                    assert(!struck(n as nat, self.next as nat));
                    assert(n >= 2);
                    if !is_prime(n as nat) {
                        lemma_composite_has_prime_factor(n as nat);
                        let p = choose|p: nat|
                            is_prime(p) && 2 <= p < n && #[trigger] ((n as nat) % p) == 0;
                        assert(!is_prime((p as u64) as nat) || p as u64 >= self.next);
                        assert(p < self.next ==> struck(n as nat, self.next as nat));
                        assert(false);
                    }
                }
                let ghost old_elim = self.eliminated@;
                let ghost nn = n as nat;
                if n <= self.max - n {
                    let mut current = n + n;
                    proof {
                        assert(((n + n) as int) % (n as int) == 0) by {
                            vstd::arithmetic::div_mod::lemma_mod_multiples_basic(2, n as int);
                        }
                    }
                    while current <= self.max
                        invariant_except_break
                            n >= 2,
                            self.max == old(self).max,
                            self.next == old(self).next,
                            self.max + 1 <= usize::MAX,
                            self.eliminated@.len() == self.max + 1,
                            2 * n <= current,
                            current % n == 0,
                            current <= self.max,
                            forall|m: int|
                                0 <= m <= self.max ==> ((#[trigger] self.eliminated@[m])
                                    <==> (old_elim[m] || (2 * n <= m < current && m % (n as int)
                                    == 0))),
                        ensures
                            self.max == old(self).max,
                            self.next == old(self).next,
                            self.eliminated@.len() == self.max + 1,
                            forall|m: int|
                                0 <= m <= self.max ==> ((#[trigger] self.eliminated@[m])
                                    <==> (old_elim[m] || (2 * n <= m <= self.max && m % (n as int)
                                    == 0))),
                        decreases self.max - current,
                    {
                        self.eliminated.set(current as usize, true);
                        proof {
                            assert forall|m: int|
                                0 <= m <= self.max && !old_elim[m] && 2 * n <= m && m % (n as int)
                                    == 0 && m < current + n implies self.eliminated@[m] by {
                                if m != current {
                                    lemma_multiple_gap(n as nat, m as nat, current as nat);
                                }
                            }
                            assert(((current + n) as int) % (n as int) == 0) by {
                                vstd::arithmetic::div_mod::lemma_mod_add_multiples_vanish(
                                    current as int,
                                    n as int,
                                );
                            }
                        }
                        if current > self.max - n {
                            proof {
                                assert forall|m: int|
                                    0 <= m <= self.max && (old_elim[m] || (2 * n <= m <= self.max
                                        && m % (n as int) == 0)) implies self.eliminated@[m] by {
                                    if !old_elim[m] && m != current && 2 * n <= m <= self.max && m
                                        % (n as int) == 0 {
                                        lemma_multiple_gap(n as nat, m as nat, current as nat);
                                    }
                                }
                            }
                            break ;
                        }
                        current = current + n;
                    }
                } else {
                    proof {
                        assert(2 * n > self.max);
                    }
                }
                proof {
                    assert forall|m: int| 0 <= m <= self.max implies ((#[trigger] self
                        .eliminated@[m]) <==> struck(m as nat, (n + 1) as nat)) by {
                        if self.eliminated@[m] {
                            if old_elim[m] {
                                assert(struck(m as nat, self.next as nat));
                                if m >= 2 {
                                    let p = choose|p: nat|
                                        is_prime(p) && p < self.next && #[trigger] ((m as nat) % p)
                                            == 0 && p != m as nat;
                                    assert(is_prime(p) && p < (n + 1) as nat && (m as nat) % p == 0
                                        && p != m as nat);
                                }
                            } else {
                                assert(2 * n <= m && m % (n as int) == 0);
                                assert((m as nat) % nn == 0 && nn != m as nat);
                                assert(is_prime(nn) && nn < (n + 1) as nat);
                            }
                        } else {
                            assert(!struck(m as nat, self.next as nat));
                            if struck(m as nat, (n + 1) as nat) {
                                assert(m >= 2);
                                let p = choose|p: nat|
                                    is_prime(p) && p < (n + 1) as nat && #[trigger] ((m as nat)
                                        % p) == 0 && p != m as nat;
                                if p < self.next {
                                    assert(struck(m as nat, self.next as nat));
                                    assert(false);
                                } else if p < nn {
                                    assert(!is_prime((p as u64) as nat));
                                    assert(false);
                                } else {
                                    assert(p == nn);
                                    assert(m % (n as int) == 0 && m != n);
                                    assert(m as nat == nn * ((m as nat) / nn)) by {
                                        vstd::arithmetic::div_mod::lemma_fundamental_div_mod(
                                            m as int,
                                            n as int,
                                        );
                                    }
                                    assert(2 * n <= m) by (nonlinear_arith)
                                        requires
                                            m as nat == nn * ((m as nat) / nn),
                                            nn >= 2,
                                            m != nn,
                                            m >= 2,
                                            nn == n,
                                    ;
                                    assert(false);
                                }
                            }
                        }
                    }
                }
                self.next = n + 1;
                return Some(n);
            }
            proof {
                assert(struck(n as nat, self.next as nat));
                if n >= 2 && is_prime(n as nat) {
                    let p = choose|p: nat|
                        is_prime(p) && p < self.next && #[trigger] ((n as nat) % p) == 0 && p != n
                            as nat;
                    assert(2 <= p < n as nat);
                    assert(false);
                }
            }
            n = n + 1;
        }
        None
    }
}

/// Make a sieve of all primes up to and including `max`. The strike list
/// needs one entry per candidate, so the bound must leave it addressable.
pub fn new(max: u64) -> (it: Primes)
    requires
        1 <= max,
        max < u64::MAX,
        max + 1 <= usize::MAX,
    ensures
        it.wf(),
        it.max == max,
        it.next == 1,
{
    let count: usize = (max as usize) + 1;
    let mut eliminated: Vec<bool> = vec![false; count];
    proof {
        assert(forall|i: int| 0 <= i < count ==> !(#[trigger] eliminated@[i]));
    }
    eliminated.set(0, true);
    eliminated.set(1, true);
    let it = Primes { max, next: 1, eliminated };
    proof {
        assert forall|m: int| 0 <= m <= max implies ((#[trigger] it.eliminated@[m]) <==> struck(
            m as nat,
            1nat,
        )) by {
            if m >= 2 {
                assert(!struck(m as nat, 1nat));
            }
        }
    }
    it
}

} // verus!

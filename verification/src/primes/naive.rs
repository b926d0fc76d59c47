//! The trial-division enumerator: count upward, keep every prime found,
//! and test each candidate against all of them. A composite candidate has
//! a prime factor smaller than itself, and every such prime has already
//! been kept, so the test is exact.

use vstd::prelude::*;
use crate::primes::{is_prime, lemma_composite_has_prime_factor};

verus! {

/// A prime enumerator over trial division.
pub struct Primes {
    /// Candidates above this bound are never examined.
    pub max: u64,
    /// The next candidate to examine.
    pub next: u64,
    /// Every prime below `next`.
    pub seen: Vec<u64>,
}

impl Primes {
    /// The enumerator's invariant: `seen` holds exactly the primes below
    /// `next`, and the bound leaves room to step past the last candidate.
    pub open spec fn wf(self) -> bool {
        &&& 1 <= self.next
        &&& self.max < u64::MAX
        &&& forall|j: int|
            0 <= j < self.seen@.len() ==> is_prime((#[trigger] self.seen@[j]) as nat)
                && self.seen@[j] < self.next
        &&& forall|q: u64| 2 <= q < self.next && is_prime(q as nat) ==> self.seen@.contains(q)
    }

    /// The next prime at or above `next` and at most `max`, stepping the
    /// enumerator past it; or nothing when no prime remains, leaving the
    /// enumerator as it was.
    pub fn next(&mut self) -> (r: Option<u64>)
        requires
            old(self).wf(),
        ensures
            final(self).wf(),
            final(self).max == old(self).max,
            r matches Some(p) ==> {
                &&& is_prime(p as nat)
                &&& old(self).next <= p <= old(self).max
                &&& forall|q: u64| old(self).next <= q < p ==> !is_prime(q as nat)
                &&& final(self).next == p + 1
            },
            r is None ==> {
                &&& forall|q: u64| old(self).next <= q <= old(self).max ==> !is_prime(q as nat)
                &&& *final(self) == *old(self)
            },
    {
        let mut i = self.next;
        while i <= self.max
            invariant
                *self == *old(self),
                self.wf(),
                self.next <= i,
                forall|q: u64| self.next <= q < i ==> !is_prime(q as nat),
            decreases self.max + 1 - i,
        {
            let mut divisible = false;
            let mut j: usize = 0;
            while j < self.seen.len()
                invariant
                    self.wf(),
                    j <= self.seen@.len(),
                    !divisible ==> forall|k: int| 0 <= k < j ==> i % (#[trigger] self.seen@[k])
                        != 0,
                    divisible ==> exists|k: int|
                        0 <= k < self.seen@.len() && i % (#[trigger] self.seen@[k]) == 0,
                decreases self.seen@.len() - j,
            {
                if i % self.seen[j] == 0 {
                    divisible = true;
                }
                j = j + 1;
            }
            if !divisible && i != 1 {
                proof {
                    assert(i >= 2);
                    if !is_prime(i as nat) {
                        lemma_composite_has_prime_factor(i as nat);
                        let p = choose|p: nat|
                            is_prime(p) && 2 <= p < i && #[trigger] ((i as nat) % p) == 0;
                        assert(!is_prime(p) || p >= self.next) by {
                            if p < self.next {
                                assert(self.seen@.contains(p as u64));
                                let k = choose|k: int|
                                    0 <= k < self.seen@.len() && self.seen@[k] == p as u64;
                                assert(i % (self.seen@[k]) != 0);
                                assert((i as nat) % p != 0);
                            }
                        }
                        assert(is_prime(p) && p < i);
                        assert(!is_prime(p as u64 as nat) || p as u64 >= self.next);
                        assert(false);
                    }
                }
                self.seen.push(i);
                self.next = i + 1;
                proof {
                    assert forall|q: u64| 2 <= q < self.next && is_prime(q as nat) implies self
                        .seen@.contains(q) by {
                        if q < old(self).next {
                            assert(old(self).seen@.contains(q));
                            let k = choose|k: int|
                                0 <= k < old(self).seen@.len() && old(self).seen@[k] == q;
                            assert(self.seen@[k] == q);
                        } else if q < i {
                            assert(!is_prime(q as nat));
                        } else {
                            assert(q == i);
                            assert(self.seen@.last() == q);
                        }
                    }
                }
                return Some(i);
            }
            proof {
                if i != 1 {
                    let k = choose|k: int|
                        0 <= k < self.seen@.len() && i % (#[trigger] self.seen@[k]) == 0;
                    let p = self.seen@[k];
                    assert(is_prime(p as nat) && p < self.next <= i);
                    assert(p >= 2);
                    assert((i as nat) % (p as nat) == 0);
                    assert(!is_prime(i as nat));
                }
            }
            i = i + 1;
        }
        None
    }
}

/// Make an enumerator of all primes up to and including `max`.
pub fn primes(max: u64) -> (it: Primes)
    requires
        max < u64::MAX,
    ensures
        it.wf(),
        it.max == max,
        it.next == 1,
        it.seen@ == Seq::<u64>::empty(),
{
    Primes { max, next: 1, seen: Vec::new() }
}

} // verus!

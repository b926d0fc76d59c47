//! Choosing an algorithm by name, and running the chosen one.

use vstd::prelude::*;
use vstd::string::StrSliceExecFns;
use crate::primes::errors::Error;
use crate::primes::is_prime;

verus! {

/// The complete, increasing list of primes up to `max`: every entry is a
/// prime in range, every prime in range appears, and entries strictly
/// increase.
pub open spec fn complete_primes(v: Seq<u64>, max: u64) -> bool {
    &&& forall|j: int| 0 <= j < v.len() ==> is_prime((#[trigger] v[j]) as nat) && v[j] <= max
    &&& forall|q: u64| 2 <= q <= max && is_prime(q as nat) ==> v.contains(q)
    &&& forall|j: int, k: int| 0 <= j < k < v.len() ==> v[j] < v[k]
}

/// The available prime-enumeration algorithms.
#[derive(Clone, Copy, Debug)]
pub enum Algorithm {
    Naive,
    Sieve,
}

/// Character-for-character equality of two strings.
fn str_eq(a: &str, b: &str) -> (r: bool)
    ensures
        r == (a@ == b@),
{
    let a_len = a.unicode_len();
    let b_len = b.unicode_len();
    if a_len != b_len {
        return false;
    }
    let mut i: usize = 0;
    while i < a_len
        invariant
            a_len == a@.len(),
            a@.len() == b@.len(),
            i <= a_len,
            forall|k: int| 0 <= k < i ==> a@[k] == b@[k],
        decreases a_len - i,
    {
        if a.get_char(i) != b.get_char(i) {
            return false;
        }
        i = i + 1;
    }
    proof {
        assert(a@ =~= b@);
    }
    true
}

impl Algorithm {
    /// Parse an algorithm name: exactly "sieve" or "naive"; any other name
    /// is rejected.
    pub fn from_str(s: &str) -> (r: Result<Algorithm, Error>)
        ensures
            s@ == "sieve"@ ==> (r matches Ok(a) && a is Sieve),
            s@ == "naive"@ ==> (r matches Ok(a) && a is Naive),
            s@ != "sieve"@ && s@ != "naive"@ ==> (r matches Err(e) && e is InvalidAlgorithm),
    {
        proof {
            reveal_strlit("sieve");
            reveal_strlit("naive");
            assert("sieve"@ != "naive"@) by {
                assert("sieve"@[0] == 's');
                assert("naive"@[0] == 'n');
            }
        }
        if str_eq(s, "sieve") {
            Ok(Algorithm::Sieve)
        } else if str_eq(s, "naive") {
            Ok(Algorithm::Naive)
        } else {
            Err(Error::InvalidAlgorithm)
        }
    }
}

/// Drain a trial-division enumerator into the complete list of its primes.
fn collect_naive(max: u64) -> (v: Vec<u64>)
    requires
        max < u64::MAX,
    ensures
        complete_primes(v@, max),
{
    let mut it = crate::primes::naive::primes(max);
    let mut v: Vec<u64> = Vec::new();
    let mut done = false;
    while !done
        invariant
            it.wf(),
            it.max == max,
            forall|j: int|
                0 <= j < v@.len() ==> is_prime((#[trigger] v@[j]) as nat) && v@[j] <= max && v@[j]
                    < it.next,
            forall|q: u64| 2 <= q < it.next && is_prime(q as nat) ==> v@.contains(q),
            forall|j: int, k: int| 0 <= j < k < v@.len() ==> v@[j] < v@[k],
            done ==> forall|q: u64| 2 <= q <= max && is_prime(q as nat) ==> v@.contains(q),
        decreases (if done {
            0int
        } else {
            1int
        }), it.max + 1 - it.next,
    {
        let ghost prev = v@;
        let ghost prev_next = it.next;
        match it.next() {
            Some(p) => {
                v.push(p);
                proof {
                    assert forall|q: u64| 2 <= q < it.next && is_prime(q as nat) implies v@
                        .contains(q) by {
                        if q < prev_next {
                            let k = choose|k: int| 0 <= k < prev.len() && prev[k] == q;
                            assert(v@[k] == q);
                        } else if q < p {
                            assert(!is_prime(q as nat));
                        } else {
                            assert(v@.last() == q);
                        }
                    }
                }
            },
            None => {
                done = true;
                proof {
                    assert forall|q: u64| 2 <= q <= max && is_prime(q as nat) implies v@.contains(
                        q,
                    ) by {
                        assert(q < it.next || !is_prime(q as nat));
                    }
                }
            },
        }
    }
    v
}

/// Drain a sieve enumerator into the complete list of its primes.
fn collect_sieve(max: u64) -> (v: Vec<u64>)
    requires
        1 <= max,
        max < u64::MAX,
        max + 1 <= usize::MAX,
    ensures
        complete_primes(v@, max),
{
    let mut it = crate::primes::sieve::new(max);
    let mut v: Vec<u64> = Vec::new();
    let mut done = false;
    while !done
        invariant
            it.wf(),
            it.max == max,
            forall|j: int|
                0 <= j < v@.len() ==> is_prime((#[trigger] v@[j]) as nat) && v@[j] <= max && v@[j]
                    < it.next,
            forall|q: u64| 2 <= q < it.next && is_prime(q as nat) ==> v@.contains(q),
            forall|j: int, k: int| 0 <= j < k < v@.len() ==> v@[j] < v@[k],
            done ==> forall|q: u64| 2 <= q <= max && is_prime(q as nat) ==> v@.contains(q),
        decreases (if done {
            0int
        } else {
            1int
        }), it.max + 1 - it.next,
    {
        let ghost prev = v@;
        let ghost prev_next = it.next;
        match it.next() {
            Some(p) => {
                v.push(p);
                proof {
                    assert forall|q: u64| 2 <= q < it.next && is_prime(q as nat) implies v@
                        .contains(q) by {
                        if q < prev_next {
                            let k = choose|k: int| 0 <= k < prev.len() && prev[k] == q;
                            assert(v@[k] == q);
                        } else if q < p {
                            assert(!is_prime(q as nat));
                        } else {
                            assert(v@.last() == q);
                        }
                    }
                }
            },
            None => {
                done = true;
                proof {
                    assert forall|q: u64| 2 <= q <= max && is_prime(q as nat) implies v@.contains(
                        q,
                    ) by {
                        assert(q < it.next || !is_prime(q as nat));
                    }
                }
            },
        }
    }
    v
}

/// All primes up to and including `max`, by the chosen algorithm, in
/// increasing order. The sieve needs one strike entry per candidate, so a
/// bound whose strike list the platform cannot address is rejected; the
/// trial-division algorithm accepts every bound.
pub fn primes_up_to(algorithm: &Algorithm, max: u64) -> (r: Result<Vec<u64>, Error>)
    requires
        max < u64::MAX,
        algorithm is Sieve ==> max >= 1,
    ensures
        r matches Ok(v) ==> complete_primes(v@, max),
        r matches Err(e) ==> {
            &&& algorithm is Sieve
            &&& max > usize::MAX - 1
            &&& e matches Error::MaxOverflow(n) && n == usize::MAX as u64
        },
        algorithm is Naive ==> r is Ok,
        algorithm is Sieve && max <= usize::MAX - 1 ==> r is Ok,
{
    match algorithm {
        Algorithm::Naive => Ok(collect_naive(max)),
        Algorithm::Sieve => {
            if max > (usize::MAX - 1) as u64 {
                Err(Error::MaxOverflow(usize::MAX as u64))
            } else {
                Ok(collect_sieve(max))
            }
        },
    }
}

} // verus!

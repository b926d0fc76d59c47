use execute_in_dirs::primes::errors::Error;
use execute_in_dirs::primes::options::{primes_up_to, Algorithm};
use execute_in_dirs::primes::{naive, sieve};

fn drain_naive(mut it: naive::Primes) -> Vec<u64> {
    let mut out = Vec::new();
    while let Some(p) = it.next() {
        out.push(p);
    }
    out
}

fn drain_sieve(mut it: sieve::Primes) -> Vec<u64> {
    let mut out = Vec::new();
    while let Some(p) = it.next() {
        out.push(p);
    }
    out
}

#[test]
fn naive_lists_primes_to_thirty() {
    let got = drain_naive(naive::primes(30));
    assert_eq!(got, vec![2, 3, 5, 7, 11, 13, 17, 19, 23, 29]);
}

#[test]
fn sieve_lists_primes_to_thirty() {
    let got = drain_sieve(sieve::new(30));
    assert_eq!(got, vec![2, 3, 5, 7, 11, 13, 17, 19, 23, 29]);
}

#[test]
fn both_algorithms_agree() {
    let naive_list = drain_naive(naive::primes(500));
    let sieve_list = drain_sieve(sieve::new(500));
    assert_eq!(naive_list, sieve_list);
    assert_eq!(naive_list.len(), 95);
}

#[test]
fn no_primes_below_two() {
    assert!(drain_naive(naive::primes(1)).is_empty());
    assert!(drain_naive(naive::primes(0)).is_empty());
    assert!(drain_sieve(sieve::new(1)).is_empty());
}

#[test]
fn driver_runs_either_algorithm() {
    let naive_list = primes_up_to(&Algorithm::Naive, 100).unwrap();
    let sieve_list = primes_up_to(&Algorithm::Sieve, 100).unwrap();
    assert_eq!(naive_list, sieve_list);
    assert_eq!(naive_list.len(), 25);
    assert_eq!(naive_list.first(), Some(&2));
    assert_eq!(naive_list.last(), Some(&97));
}

#[test]
fn driver_accepts_empty_range() {
    assert_eq!(primes_up_to(&Algorithm::Naive, 0).unwrap(), Vec::<u64>::new());
}

#[test]
fn algorithm_names_parse_exactly() {
    assert!(matches!(Algorithm::from_str("sieve"), Ok(Algorithm::Sieve)));
    assert!(matches!(Algorithm::from_str("naive"), Ok(Algorithm::Naive)));
    assert!(matches!(Algorithm::from_str("Sieve"), Err(Error::InvalidAlgorithm)));
    assert!(matches!(Algorithm::from_str("quadratic"), Err(Error::InvalidAlgorithm)));
    assert!(matches!(Algorithm::from_str(""), Err(Error::InvalidAlgorithm)));
}

#[test]
fn error_reasons_render() {
    assert_eq!(Error::InvalidAlgorithm.reason(), b"choices are sieve & naive".to_vec());
    assert_eq!(Error::IO(b"oops".to_vec()).reason(), b"oops".to_vec());
    assert_eq!(
        Error::MaxOverflow(10).reason(),
        b"<max> must be less than 9 on this platform".to_vec()
    );
    let expected = format!("<max> must be less than {} on this platform", usize::MAX - 1);
    assert_eq!(Error::MaxOverflow(usize::MAX as u64).reason(), expected.into_bytes());
}

use scriptlets::sieve::{prime_sieve, primes_between, RangeError, DEFAULT_PRIMES_TILL};

#[test]
fn primes_up_to_thirty() {
    assert_eq!(prime_sieve(None, 30), vec![2, 3, 5, 7, 11, 13, 17, 19, 23, 29]);
}

#[test]
fn primes_with_a_minimum() {
    assert_eq!(
        prime_sieve(Some(10), 50),
        vec![11, 13, 17, 19, 23, 29, 31, 37, 41, 43, 47]
    );
}

#[test]
fn zero_and_one_are_not_prime() {
    assert_eq!(prime_sieve(None, 0), Vec::<usize>::new());
    assert_eq!(prime_sieve(None, 1), Vec::<usize>::new());
    assert_eq!(prime_sieve(None, 2), vec![2]);
}

#[test]
fn bound_is_inclusive() {
    assert_eq!(prime_sieve(Some(13), 13), vec![13]);
    assert_eq!(prime_sieve(Some(14), 16), Vec::<usize>::new());
}

#[test]
fn minimum_above_maximum_gives_nothing_from_the_sieve() {
    assert_eq!(prime_sieve(Some(40), 30), Vec::<usize>::new());
}

#[test]
fn default_bound_count() {
    assert_eq!(prime_sieve(None, DEFAULT_PRIMES_TILL).len(), 1474);
}

#[test]
fn sieve_output_is_sorted_and_prime() {
    let primes = prime_sieve(None, 2000);
    for w in primes.windows(2) {
        assert!(w[0] < w[1]);
    }
    for p in &primes {
        assert!(*p >= 2);
        assert!((2..*p).all(|d| p % d != 0));
    }
    for n in 2..=2000usize {
        let is_prime = (2..n).all(|d| n % d != 0);
        assert_eq!(primes.contains(&n), is_prime);
    }
}

#[test]
fn range_check_rejects_min_above_max() {
    assert_eq!(primes_between(31, 30), Err(RangeError::MinAboveMax));
}

#[test]
fn range_check_accepts_equal_bounds() {
    assert_eq!(primes_between(7, 7), Ok(vec![7]));
    assert_eq!(primes_between(8, 8), Ok(vec![]));
}

#[test]
fn bit_sieve_matches_byte_sieve() {
    for max in [0usize, 1, 2, 3, 10, 97, 100, 1000] {
        assert_eq!(scriptlets::sieve_bits::prime_sieve(None, max), prime_sieve(None, max));
        assert_eq!(scriptlets::sieve_bits::prime_sieve(Some(5), max), prime_sieve(Some(5), max));
    }
}

#[test]
fn bit_sieve_up_to_thirty() {
    assert_eq!(
        scriptlets::sieve_bits::prime_sieve(Some(3), 30),
        vec![3, 5, 7, 11, 13, 17, 19, 23, 29]
    );
}

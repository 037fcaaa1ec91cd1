use chatrelay::primes::prime_verdict;

#[test]
fn small_primes_and_composites() {
    assert!(prime_verdict(Some(2)));
    assert!(prime_verdict(Some(3)));
    assert!(prime_verdict(Some(13)));
    assert!(!prime_verdict(Some(0)));
    assert!(!prime_verdict(Some(1)));
    assert!(!prime_verdict(Some(15)));
    assert!(!prime_verdict(Some(1000000)));
}

#[test]
fn large_prime() {
    assert!(prime_verdict(Some(6_469_693_333)));
}

#[test]
fn non_whole_number_is_not_prime() {
    assert!(!prime_verdict(None));
}

use factor_bounty::primality::is_prime;

#[test]
fn test_prime() {
    let primes: Vec<u128> = vec![
        2, 3, 5, 7, 11, 13, 17, 19, 23, 29, 31, 37, 41, 43, 47, 53, 59, 61, 67, 71, 73, 79, 83,
        89, 97,
    ];
    for n in 0..100u128 {
        assert_eq!(is_prime(n), primes.contains(&n));
    }
}

#[test]
fn zero_and_one_are_not_prime() {
    assert!(!is_prime(0));
    assert!(!is_prime(1));
}

#[test]
fn larger_inputs() {
    assert!(is_prime(1_000_000_007));
    assert!(!is_prime(1_000_000_007 * 3));
    assert!(!is_prime(91));
    assert!(is_prime(65_537));
}

use mandelbrot::{gcd, gcd_all};

#[test]
fn test_gcd() {
    assert_eq!(gcd(14, 15), 1);
    assert_eq!(gcd(2 * 3 * 5 * 11 * 17, 3 * 7 * 11 * 13 * 19), 3 * 11);
}

#[test]
fn gcd_of_equal_and_multiple() {
    assert_eq!(gcd(12, 12), 12);
    assert_eq!(gcd(4, 12), 4);
    assert_eq!(gcd(12, 4), 4);
    assert_eq!(gcd(u64::MAX, u64::MAX - 1), 1);
}

#[test]
fn gcd_all_of_list() {
    assert_eq!(gcd_all(&vec![42]), 42);
    assert_eq!(gcd_all(&vec![12, 18, 30]), 6);
    assert_eq!(gcd_all(&vec![7, 14, 5]), 1);
}

use backtesting_rs::fixed::Fixed;

#[test]
fn construction_and_comparison() {
    let a = Fixed::from_int(2);
    let b = Fixed::from_mantissa(2_000_000_000);
    assert_eq!(a, b);
    assert!(Fixed::zero().is_zero());
    assert!(!a.is_zero());
    assert!(Fixed::from_int(1).lt(a));
    assert!(a.le(b));
    assert!(!a.lt(b));
}

#[test]
fn arithmetic_is_exact_on_the_grid() {
    let a = Fixed::from_int(100);
    let b = Fixed::from_mantissa(1_500_000); // 0.0015
    assert_eq!(a.add(b), Fixed::from_mantissa(100_001_500_000));
    assert_eq!(a.sub(b), Fixed::from_mantissa(99_998_500_000));
    // 100 * 0.0015 = 0.15
    assert_eq!(a.mul_down(b), Fixed::from_mantissa(150_000_000));
    // 1 / 3 rounds down at nine digits
    assert_eq!(
        Fixed::from_int(1).div_down(Fixed::from_int(3)),
        Fixed::from_mantissa(333_333_333)
    );
}

use system_info::percent::{magnitude, mul_wide, wide_le};
use system_info::Percent;

fn p(numer: i128, denom: i128) -> Percent {
    Percent::new(numer, denom)
}

#[test]
fn new_and_zero_hold_what_they_are_given() {
    assert_eq!(p(5, 7), Percent { numer: 5, denom: 7 });
    assert_eq!(Percent::zero(), Percent { numer: 0, denom: 1 });
    assert!(Percent::zero().defined());
    assert!(!p(0, 0).defined());
    assert!(!p(3, 0).defined());
}

#[test]
fn fractions_are_compared_as_numbers() {
    assert!(p(1, 2).at_least(&p(1, 3)));
    assert!(!p(1, 3).at_least(&p(1, 2)));
    assert!(p(2, 4).at_least(&p(1, 2)));
    assert!(p(1, 2).at_least(&p(2, 4)));
    assert!(p(0, 5).at_least(&p(-1, 5)));
    assert!(!p(-1, 5).at_least(&p(0, 5)));
    assert!(p(-1, 3).at_least(&p(-1, 2)));
    assert!(!p(-1, 2).at_least(&p(-1, 3)));
}

#[test]
fn the_sign_of_the_denominator_counts() {
    assert!(p(-1, -2).at_least(&p(1, 3)));
    assert!(p(1, 3).at_least(&p(1, -2)));
    assert!(!p(1, -2).at_least(&p(1, 3)));
    assert!(p(1, -2).at_least(&p(-1, 2)));
    assert!(p(-1, 2).at_least(&p(1, -2)));
    assert!(p(0, -1).at_least(&p(0, 1)));
}

#[test]
fn what_is_no_number_is_below_every_number() {
    assert!(p(-1000, 1).at_least(&p(0, 0)));
    assert!(!p(0, 0).at_least(&p(-1000, 1)));
    assert!(p(0, 0).at_least(&p(5, 0)));
    assert!(p(5, 0).at_least(&p(0, 0)));
}

#[test]
fn the_largest_values_are_compared_without_overflow() {
    let max = i128::MAX;
    let min = i128::MIN;
    assert!(p(max, 1).at_least(&p(max - 1, 1)));
    assert!(!p(max - 1, 1).at_least(&p(max, 1)));
    assert!(p(max, max).at_least(&p(max - 1, max)));
    assert!(!p(max - 1, max).at_least(&p(max, max)));
    assert!(p(max, max - 1).at_least(&p(max, max)));
    assert!(p(min, min).at_least(&p(max, max)));
    assert!(p(max, max).at_least(&p(min, min)));
    assert!(p(max, 1).at_least(&p(min, 1)));
    assert!(!p(min, 1).at_least(&p(max, 1)));
    assert!(p(min, -1).at_least(&p(max, 1)));
    assert!(!p(max, 1).at_least(&p(min, -1)));
}

#[test]
fn magnitude_is_the_absolute_value() {
    assert_eq!(magnitude(0), 0);
    assert_eq!(magnitude(5), 5);
    assert_eq!(magnitude(-5), 5);
    assert_eq!(magnitude(i128::MAX), i128::MAX as u128);
    assert_eq!(magnitude(i128::MIN), 1u128 << 127);
}

#[test]
fn products_are_computed_in_full() {
    assert_eq!(mul_wide(0, u128::MAX), (0, 0));
    assert_eq!(mul_wide(3, 7), (0, 21));
    assert_eq!(mul_wide(1u128 << 64, 1u128 << 64), (1, 0));
    assert_eq!(mul_wide(u128::MAX, 2), (1, u128::MAX - 1));
    assert_eq!(mul_wide(u128::MAX, u128::MAX), (u128::MAX - 1, 1));
    assert_eq!(mul_wide((1u128 << 64) + 1, (1u128 << 64) + 1), (1, (1u128 << 65) + 1));
    assert_eq!(mul_wide(u64::MAX as u128, u64::MAX as u128), (0, 0xFFFF_FFFF_FFFF_FFFE_0000_0000_0000_0001));
}

#[test]
fn wide_numbers_are_ordered_by_their_high_half_first() {
    assert!(wide_le((0, 5), (0, 5)));
    assert!(wide_le((0, u128::MAX), (1, 0)));
    assert!(!wide_le((1, 0), (0, u128::MAX)));
    assert!(wide_le((2, 3), (2, 4)));
    assert!(!wide_le((2, 4), (2, 3)));
}

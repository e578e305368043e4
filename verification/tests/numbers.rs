use discount_allocator::money::Money;
use discount_allocator::natural::Natural;

fn natural(n: u64) -> Natural {
    Natural::from_u64(n)
}

fn frac(n: i64, d: u64) -> Money {
    Money::from_fraction(n, d).unwrap()
}

#[test]
fn natural_round_trip() {
    assert_eq!(natural(0).to_u64(), Some(0));
    assert_eq!(natural(4294967295).to_u64(), Some(4294967295));
    assert_eq!(natural(4294967296).to_u64(), Some(4294967296));
    assert_eq!(natural(u64::MAX).to_u64(), Some(u64::MAX));
    assert_eq!(Natural::zero().to_u64(), Some(0));
    assert!(Natural::zero().is_zero());
    assert!(!natural(1).is_zero());
    assert!(Natural::from_limbs(vec![0, 0, 0]).is_zero());
}

#[test]
fn natural_limbs_are_least_significant_first() {
    assert_eq!(Natural::from_limbs(vec![1, 2]).to_u64(), Some(2 * 4294967296 + 1));
    assert_eq!(Natural::from_limbs(vec![7, 0, 0, 0]).to_u64(), Some(7));
    assert_eq!(Natural::from_limbs(vec![0, 0, 1]).to_u64(), None);
    let back = Natural::from_limbs(natural(12345678901234567890).limbs().clone());
    assert_eq!(back.to_u64(), Some(12345678901234567890));
}

#[test]
fn natural_add_carries_across_limbs() {
    assert_eq!(natural(4294967295).add(&natural(1)).to_u64(), Some(4294967296));
    assert_eq!(natural(u64::MAX).add(&natural(1)).to_u64(), None);
    let big = natural(u64::MAX).add(&natural(1));
    assert_eq!(big.checked_sub(&natural(1)).unwrap().to_u64(), Some(u64::MAX));
    assert_eq!(natural(17).add(&natural(25)).to_u64(), Some(42));
}

#[test]
fn natural_checked_sub() {
    assert_eq!(natural(10).checked_sub(&natural(3)).unwrap().to_u64(), Some(7));
    assert_eq!(natural(4294967296).checked_sub(&natural(1)).unwrap().to_u64(), Some(4294967295));
    assert!(natural(3).checked_sub(&natural(10)).is_none());
    assert!(natural(5).checked_sub(&natural(5)).unwrap().is_zero());
}

#[test]
fn natural_mul() {
    assert_eq!(natural(6).mul(&natural(7)).to_u64(), Some(42));
    assert_eq!(natural(4294967296).mul(&natural(4294967295)).to_u64(), Some(4294967296 * 4294967295));
    assert_eq!(natural(123456789).mul(&natural(987654321)).to_u64(), Some(121932631112635269));
    assert!(natural(0).mul(&natural(99)).is_zero());
    // (2^64 - 1)^2 = 2^128 - 2^65 + 1
    let square = natural(u64::MAX).mul(&natural(u64::MAX));
    let expected = Natural::from_limbs(vec![1, 0, 4294967294, 4294967295]);
    assert!(square.equals(&expected));
    assert_eq!(natural(1000).mul_small(1000).to_u64(), Some(1000000));
    assert_eq!(natural(3).shift_limb().to_u64(), Some(3 * 4294967296));
}

#[test]
fn natural_order() {
    assert!(natural(3).le(&natural(3)));
    assert!(natural(3).le(&natural(4)));
    assert!(!natural(4).le(&natural(3)));
    assert!(natural(3).lt(&natural(4)));
    assert!(!natural(3).lt(&natural(3)));
    assert!(natural(3).equals(&Natural::from_limbs(vec![3, 0, 0])));
    assert!(!natural(3).equals(&natural(4)));
    assert!(natural(9).duplicate().equals(&natural(9)));
}

#[test]
fn money_is_exact() {
    assert!(frac(1, 2).add(&frac(1, 3)).equals(&frac(5, 6)));
    assert!(frac(1, 10).add(&frac(2, 10)).equals(&frac(3, 10)));
    assert!(frac(2, 4).equals(&frac(1, 2)));
    assert!(!frac(1, 3).equals(&frac(333333, 1000000)));
    assert!(Money::from_u64(7).equals(&frac(7, 1)));
    assert!(Money::zero().is_zero());
    assert!(frac(0, 5).is_zero());
    assert!(!frac(1, 5).is_zero());
}

#[test]
fn money_fraction_needs_a_denominator() {
    assert!(Money::from_fraction(1, 0).is_none());
    assert!(Money::from_naturals(false, natural(1), natural(0)).is_none());
    assert!(Money::from_naturals(false, natural(3), natural(4)).unwrap().equals(&frac(3, 4)));
}

#[test]
fn money_sub_goes_below_zero() {
    assert!(frac(5, 6).sub(&frac(1, 3)).equals(&frac(1, 2)));
    assert!(frac(1, 3).sub(&frac(1, 3)).is_zero());
    assert!(frac(1, 3).sub(&frac(1, 2)).equals(&frac(-1, 6)));
    assert!(frac(1, 3).sub(&frac(1, 2)).is_negative());
    assert!(frac(-1, 3).sub(&frac(-1, 2)).equals(&frac(1, 6)));
}

#[test]
fn money_signs() {
    assert!(frac(-1, 2).is_negative());
    assert!(!frac(-1, 2).is_positive());
    assert!(frac(1, 2).is_positive());
    assert!(!frac(1, 2).is_negative());
    assert!(!Money::zero().is_positive());
    assert!(!Money::zero().is_negative());
    assert!(!Money::zero().neg().is_negative());
    assert!(frac(1, 2).neg().equals(&frac(-1, 2)));
    assert!(frac(-1, 2).neg().equals(&frac(1, 2)));
    assert!(Money::from_i64(-7).equals(&frac(-7, 1)));
    assert!(Money::from_i64(i64::MIN).add(&Money::from_u64(9223372036854775808)).is_zero());
    assert!(Money::from_naturals(true, natural(3), natural(4)).unwrap().equals(&frac(-3, 4)));
    assert!(Money::from_naturals(true, natural(0), natural(4)).unwrap().is_zero());
}

#[test]
fn money_add_with_mixed_signs() {
    assert!(frac(1, 2).add(&frac(-1, 3)).equals(&frac(1, 6)));
    assert!(frac(-1, 2).add(&frac(1, 3)).equals(&frac(-1, 6)));
    assert!(frac(-1, 2).add(&frac(-1, 3)).equals(&frac(-5, 6)));
    assert!(frac(1, 2).add(&frac(-1, 2)).is_zero());
    assert!(frac(-1, 2).add(&frac(1, 2)).is_zero());
}

#[test]
fn money_mul_and_div() {
    assert!(frac(2, 3).mul(&frac(3, 4)).equals(&frac(1, 2)));
    assert!(frac(5, 2).times(4).equals(&Money::from_u64(10)));
    assert!(frac(1, 2).checked_div(&frac(1, 4)).unwrap().equals(&Money::from_u64(2)));
    assert!(frac(1, 2).checked_div(&Money::zero()).is_none());
    assert!(Money::zero().checked_div(&frac(1, 2)).unwrap().is_zero());
    assert!(frac(-2, 3).mul(&frac(3, 4)).equals(&frac(-1, 2)));
    assert!(frac(-2, 3).mul(&frac(-3, 4)).equals(&frac(1, 2)));
    assert!(frac(5, 2).times(-4).equals(&Money::from_i64(-10)));
    assert!(frac(-1, 2).checked_div(&frac(1, 4)).unwrap().equals(&Money::from_i64(-2)));
    assert!(frac(1, 2).checked_div(&frac(-1, 4)).unwrap().equals(&Money::from_i64(-2)));
    assert!(frac(-1, 2).checked_div(&frac(-1, 4)).unwrap().equals(&Money::from_u64(2)));
}

#[test]
fn money_order() {
    assert!(frac(1, 3).lt(&frac(1, 2)));
    assert!(frac(1, 3).le(&frac(2, 6)));
    assert!(!frac(1, 3).lt(&frac(2, 6)));
    assert!(!frac(1, 2).le(&frac(1, 3)));
    assert!(frac(-1, 2).lt(&frac(-1, 3)));
    assert!(frac(-1, 2).lt(&Money::zero()));
    assert!(frac(-1, 2).le(&frac(1, 3)));
    assert!(!frac(1, 3).le(&frac(-1, 2)));
    assert!(Money::zero().le(&Money::zero().neg()));
}

#[test]
fn money_parts_give_the_value_back() {
    let m = frac(6, 8);
    let (negative, n, d) = m.parts();
    assert!(!negative);
    assert!(!d.is_zero());
    let again = Money::from_naturals(negative, n.duplicate(), d.duplicate()).unwrap();
    assert!(again.equals(&frac(3, 4)));
    let (negative, _, _) = frac(-6, 8).parts();
    assert!(negative);
    assert!(m.duplicate().equals(&m));
}

#[test]
fn money_stays_exact_over_many_steps() {
    let mut sum = Money::zero();
    for k in 1..40i64 {
        sum = sum.add(&frac(1, (k * (k + 1)) as u64));
    }
    // 1/(1*2) + 1/(2*3) + ... + 1/(39*40) = 39/40
    assert!(sum.equals(&frac(39, 40)));
}

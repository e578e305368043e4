use discount_allocator::amounts::{
    clamp_to, find_line, raw_amount_of, resolve_target, settle_amount,
};
use discount_allocator::data::{CartLine, DiscountValue, Target};
use discount_allocator::money::Money;

fn frac(n: i64, d: u64) -> Money {
    Money::from_fraction(n, d).unwrap()
}

fn units(n: u64) -> Money {
    Money::from_u64(n)
}

fn lines() -> Vec<CartLine> {
    vec![
        CartLine { id: "a".to_string(), quantity: 3, unit_price: frac(5, 2) },
        CartLine { id: "b".to_string(), quantity: 1, unit_price: units(10) },
        CartLine { id: "a-twin".to_string(), quantity: 1, unit_price: units(1) },
        CartLine { id: "b".to_string(), quantity: 1, unit_price: units(10) },
    ]
}

#[test]
fn find_line_wants_exactly_one_match() {
    let l = lines();
    assert_eq!(find_line(&l, &"a".to_string()), Some(0));
    assert_eq!(find_line(&l, &"a-twin".to_string()), Some(2));
    assert_eq!(find_line(&l, &"b".to_string()), None);
    assert_eq!(find_line(&l, &"c".to_string()), None);
    assert_eq!(find_line(&Vec::new(), &"a".to_string()), None);
}

#[test]
fn resolve_target_prices_the_target() {
    let l = lines();
    let found = resolve_target(&l, &Target { cart_line_id: "a".to_string(), quantity: 2 }).unwrap();
    assert_eq!(found.line, 0);
    assert_eq!(found.quantity, 2);
    assert!(found.base.equals(&units(5)));
    assert!(resolve_target(&l, &Target { cart_line_id: "b".to_string(), quantity: 2 }).is_none());
}

#[test]
fn raw_amount_for_each_kind_of_value() {
    let base = units(50);
    let total = units(200);
    let each = DiscountValue::FixedAmount { amount: units(3), applies_to_each_item: true };
    let split = DiscountValue::FixedAmount { amount: units(20), applies_to_each_item: false };
    let percent = DiscountValue::Percentage { value: frac(25, 2) };
    assert!(raw_amount_of(&each, &base, &total, 4).unwrap().equals(&units(12)));
    assert!(raw_amount_of(&split, &base, &total, 4).unwrap().equals(&units(5)));
    // 12.5% of 50
    assert!(raw_amount_of(&percent, &base, &total, 4).unwrap().equals(&frac(25, 4)));
}

#[test]
fn raw_amount_needs_a_total() {
    let each = DiscountValue::FixedAmount { amount: units(3), applies_to_each_item: true };
    let split = DiscountValue::FixedAmount { amount: units(20), applies_to_each_item: false };
    let percent = DiscountValue::Percentage { value: units(10) };
    assert!(raw_amount_of(&each, &Money::zero(), &Money::zero(), 4).is_none());
    assert!(raw_amount_of(&split, &Money::zero(), &Money::zero(), 4).is_none());
    assert!(raw_amount_of(&percent, &Money::zero(), &Money::zero(), 4).is_none());
}

#[test]
fn settle_without_caps_keeps_the_amount() {
    let s = settle_amount(&units(10), &None, &units(90), &None, &units(500));
    assert!(s.amount.equals(&units(10)));
    assert!(!s.hit_discount_cap);
    assert!(!s.hit_cart_cap);
}

#[test]
fn settle_cuts_to_what_the_discount_cap_leaves() {
    let s = settle_amount(&units(10), &Some(units(12)), &units(5), &None, &units(5));
    assert!(s.amount.equals(&units(7)));
    assert!(s.hit_discount_cap);
    assert!(!s.hit_cart_cap);
}

#[test]
fn settle_cuts_to_what_the_cart_cap_leaves() {
    let s = settle_amount(&units(10), &None, &units(5), &Some(units(8)), &units(5));
    assert!(s.amount.equals(&units(3)));
    assert!(!s.hit_discount_cap);
    assert!(s.hit_cart_cap);
}

#[test]
fn settle_applies_the_discount_cap_first() {
    // The discount's cap leaves 7, the cart's cap leaves 8: only the first cuts.
    let s = settle_amount(&units(10), &Some(units(12)), &units(5), &Some(units(20)), &units(12));
    assert!(s.amount.equals(&units(7)));
    assert!(s.hit_discount_cap);
    assert!(!s.hit_cart_cap);
    // The discount's cap leaves 7, the cart's cap leaves 2: both cut.
    let s = settle_amount(&units(10), &Some(units(12)), &units(5), &Some(units(20)), &units(18));
    assert!(s.amount.equals(&units(2)));
    assert!(s.hit_discount_cap);
    assert!(s.hit_cart_cap);
}

#[test]
fn settle_at_a_full_cap_leaves_nothing() {
    let s = settle_amount(&units(10), &Some(units(5)), &units(5), &None, &units(5));
    assert!(s.amount.is_zero());
    assert!(s.hit_discount_cap);
    let s = settle_amount(&units(10), &None, &units(5), &Some(units(5)), &units(5));
    assert!(s.amount.is_zero());
    assert!(s.hit_cart_cap);
}

#[test]
fn settle_an_amount_that_just_fits() {
    let s = settle_amount(&units(7), &Some(units(12)), &units(5), &Some(units(20)), &units(13));
    assert!(s.amount.equals(&units(7)));
    assert!(!s.hit_discount_cap);
    assert!(!s.hit_cart_cap);
}

#[test]
fn settle_above_a_cap_leaves_less_than_nothing() {
    let s = settle_amount(&units(1), &Some(units(5)), &units(9), &Some(units(100)), &units(9));
    assert!(s.amount.equals(&Money::from_i64(-4)));
    assert!(s.hit_discount_cap);
    assert!(!s.hit_cart_cap);
}

#[test]
fn settle_ignores_caps_below_zero() {
    let below = Some(Money::from_i64(-1));
    let s = settle_amount(&units(10), &below, &units(5), &below, &units(5));
    assert!(s.amount.equals(&units(10)));
    assert!(!s.hit_discount_cap);
    assert!(!s.hit_cart_cap);
}

#[test]
fn clamp_cuts_only_what_goes_past_the_cap() {
    let (left, cut) = clamp_to(&Some(units(10)), &units(4), &units(6));
    assert!(left.equals(&units(6)));
    assert!(!cut);
    let (left, cut) = clamp_to(&Some(units(10)), &units(4), &frac(13, 2));
    assert!(left.equals(&units(6)));
    assert!(cut);
    let (left, cut) = clamp_to(&None, &units(4), &units(600));
    assert!(left.equals(&units(600)));
    assert!(!cut);
    let (left, cut) = clamp_to(&Some(Money::zero()), &Money::zero(), &units(1));
    assert!(left.is_zero());
    assert!(cut);
}

#[test]
fn raw_amount_with_a_negative_quantity() {
    let each = DiscountValue::FixedAmount { amount: units(3), applies_to_each_item: true };
    assert!(raw_amount_of(&each, &units(50), &units(200), -4)
        .unwrap()
        .equals(&Money::from_i64(-12)));
}

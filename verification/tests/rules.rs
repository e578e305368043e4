use discount_allocator::money::Money;
use discount_allocator::rules::{
    qualifying_lines, subtotal_discount, volume_discount, QuantityLine, SubtotalRule, VolumeRule,
};

fn line(id: &str, quantity: i64) -> QuantityLine {
    QuantityLine { id: id.to_string(), quantity }
}

fn frac(n: i64, d: u64) -> Money {
    Money::from_fraction(n, d).unwrap()
}

#[test]
fn lines_qualify_from_the_threshold_up() {
    let lines = vec![line("a", 1), line("b", 2), line("c", 5), line("d", 0), line("e", 2)];
    assert_eq!(qualifying_lines(&lines, 2), vec!["b".to_string(), "c".to_string(), "e".to_string()]);
    assert_eq!(qualifying_lines(&lines, 6), Vec::<String>::new());
    assert_eq!(qualifying_lines(&lines, 0).len(), 5);
    assert_eq!(qualifying_lines(&lines, -3).len(), 5);
    assert_eq!(qualifying_lines(&Vec::new(), 0).len(), 0);
}

#[test]
fn volume_rule_gives_its_percentage_to_the_lines_that_qualify() {
    let lines = vec![line("a", 1), line("b", 3), line("c", 5)];
    let rule = VolumeRule { quantity: 3, percentage: frac(15, 2) };
    let given = volume_discount(&lines, Some(&rule)).unwrap();
    assert_eq!(given.targets, vec!["b".to_string(), "c".to_string()]);
    assert!(given.percentage.equals(&frac(15, 2)));
}

#[test]
fn volume_rule_gives_nothing_where_no_line_qualifies() {
    let lines = vec![line("a", 1), line("b", 3)];
    let rule = VolumeRule { quantity: 4, percentage: frac(10, 1) };
    assert!(volume_discount(&lines, Some(&rule)).is_none());
    assert!(volume_discount(&Vec::new(), Some(&rule)).is_none());
}

#[test]
fn volume_rule_gives_nothing_where_none_is_set() {
    let lines = vec![line("a", 1000)];
    assert!(volume_discount(&lines, None).is_none());
}

#[test]
fn default_rules() {
    let v = VolumeRule::default();
    assert_eq!(v.quantity, 999);
    assert!(v.percentage.is_zero());
    let s = SubtotalRule::default();
    assert_eq!(s.minimum_amount, 999);
    assert!(s.percentage.is_zero());
}

#[test]
fn starter_rule_is_ten_percent_from_two_up() {
    let rule = VolumeRule::starter();
    assert_eq!(rule.quantity, 2);
    assert!(rule.percentage.equals(&frac(10, 1)));
    let lines = vec![line("a", 1), line("b", 2)];
    let given = volume_discount(&lines, Some(&rule)).unwrap();
    assert_eq!(given.targets, vec!["b".to_string()]);
}

#[test]
fn subtotal_rule_passes_its_values_on() {
    let rule = SubtotalRule { minimum_amount: 50, percentage: frac(5, 1) };
    let given = subtotal_discount(Some(&rule)).unwrap();
    assert_eq!(given.minimum_amount, 50);
    assert!(given.percentage.equals(&frac(5, 1)));
    assert_eq!(given.message(), "Discount applied");
    assert!(subtotal_discount(None).is_none());
}

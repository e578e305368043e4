use discount_allocator::data::{
    CapReason, CartLine, DiscountProposal, DiscountValue, Fault, Target,
};
use discount_allocator::invocation::{read_cap, run, DiscountRequest, Request};
use discount_allocator::money::Money;

fn line(id: &str, quantity: i64, price: u64) -> CartLine {
    CartLine { id: id.to_string(), quantity, unit_price: Money::from_u64(price) }
}

fn ten_percent(handle: &str, line_id: &str) -> DiscountProposal {
    DiscountProposal {
        handle: handle.to_string(),
        value: DiscountValue::Percentage { value: Money::from_u64(10) },
        targets: vec![Target { cart_line_id: line_id.to_string(), quantity: 1 }],
    }
}

fn request(cart_cap: Option<&str>, discount_cap: Option<&str>, line_id: &str) -> Request {
    Request {
        cap: cart_cap.map(|c| c.to_string()),
        lines: vec![line("a", 1, 100)],
        discounts: vec![DiscountRequest {
            id: "d1".to_string(),
            cap: discount_cap.map(|c| c.to_string()),
            proposals: vec![ten_percent("offer-a", line_id)],
        }],
    }
}

fn units(n: u64) -> Money {
    Money::from_u64(n)
}

#[test]
fn run_without_caps() {
    let out = run(request(None, None, "a")).unwrap();
    assert_eq!(out.lines.len(), 1);
    assert!(out.lines[0].allocations[0].amount.equals(&units(10)));
    assert_eq!(out.notices.len(), 0);
}

#[test]
fn run_reads_negative_caps_as_no_cap() {
    let out = run(request(Some("-1"), Some("-1"), "a")).unwrap();
    assert!(out.lines[0].allocations[0].amount.equals(&units(10)));
    assert_eq!(out.notices.len(), 0);
}

#[test]
fn run_reads_the_discount_cap() {
    let out = run(request(None, Some("5"), "a")).unwrap();
    assert!(out.lines[0].allocations[0].amount.equals(&units(5)));
    assert_eq!(out.notices.len(), 1);
    assert_eq!(out.notices[0].discount_id, "d1");
    assert_eq!(out.notices[0].reason, CapReason::DiscountCap);
}

#[test]
fn run_reads_the_cart_cap() {
    let out = run(request(Some("2.5"), None, "a")).unwrap();
    assert!(out.lines[0].allocations[0].amount.equals(&Money::from_fraction(5, 2).unwrap()));
    assert_eq!(out.notices.len(), 1);
    assert_eq!(out.notices[0].reason, CapReason::CartCap);
}

#[test]
fn run_fails_on_a_malformed_cart_cap() {
    assert!(matches!(run(request(Some("lots"), None, "a")), Err(Fault::MalformedCap)));
    assert!(matches!(run(request(Some(""), None, "a")), Err(Fault::MalformedCap)));
}

#[test]
fn run_fails_on_a_malformed_discount_cap() {
    assert!(matches!(run(request(None, Some("5 USD"), "a")), Err(Fault::MalformedCap)));
}

#[test]
fn run_fails_on_an_unknown_line() {
    assert!(matches!(run(request(None, Some("5"), "b")), Err(Fault::UnresolvedTarget)));
}

#[test]
fn malformed_cap_comes_before_an_unknown_line() {
    assert!(matches!(run(request(None, Some("x"), "b")), Err(Fault::MalformedCap)));
    assert!(matches!(run(request(Some("x"), None, "b")), Err(Fault::MalformedCap)));
}

#[test]
fn run_with_nothing_to_do() {
    let out = run(Request { cap: Some("3".to_string()), lines: Vec::new(), discounts: Vec::new() })
        .unwrap();
    assert_eq!(out.lines.len(), 0);
    assert_eq!(out.notices.len(), 0);
}

#[test]
fn read_cap_of_each_kind() {
    assert!(matches!(read_cap(&None), Ok(None)));
    assert!(matches!(read_cap(&Some("-3".to_string())), Ok(None)));
    assert!(matches!(read_cap(&Some("3x".to_string())), Err(Fault::MalformedCap)));
    match read_cap(&Some("3".to_string())) {
        Ok(Some(cap)) => assert!(cap.equals(&units(3))),
        _ => panic!("expected a cap"),
    }
}

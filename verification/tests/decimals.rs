use discount_allocator::data::Fault;
use discount_allocator::decimal::{parse_cap, parse_decimal, parse_decimal_bytes, parse_unsigned};
use discount_allocator::money::Money;

fn frac(n: i64, d: u64) -> Money {
    Money::from_fraction(n, d).unwrap()
}

#[test]
fn whole_numbers() {
    assert!(parse_unsigned(b"0").unwrap().is_zero());
    assert!(parse_unsigned(b"7").unwrap().equals(&frac(7, 1)));
    assert!(parse_unsigned(b"100").unwrap().equals(&frac(100, 1)));
    assert!(parse_unsigned(b"007").unwrap().equals(&frac(7, 1)));
}

#[test]
fn numbers_with_a_point() {
    assert!(parse_unsigned(b"12.5").unwrap().equals(&frac(25, 2)));
    assert!(parse_unsigned(b"19.99").unwrap().equals(&frac(1999, 100)));
    assert!(parse_unsigned(b"0.001").unwrap().equals(&frac(1, 1000)));
    assert!(parse_unsigned(b".5").unwrap().equals(&frac(1, 2)));
    assert!(parse_unsigned(b"5.").unwrap().equals(&frac(5, 1)));
    assert!(parse_unsigned(b"1.50").unwrap().equals(&frac(3, 2)));
}

#[test]
fn numbers_longer_than_a_machine_word() {
    let m = parse_unsigned(b"123456789012345678901234567890.5").unwrap();
    let twice = m.add(&m);
    let expected = parse_unsigned(b"246913578024691357802469135781").unwrap();
    assert!(twice.equals(&expected));
}

#[test]
fn what_is_no_decimal() {
    assert!(parse_unsigned(b"").is_none());
    assert!(parse_unsigned(b".").is_none());
    assert!(parse_unsigned(b"1.2.3").is_none());
    assert!(parse_unsigned(b"abc").is_none());
    assert!(parse_unsigned(b"1e3").is_none());
    assert!(parse_unsigned(b" 1").is_none());
    assert!(parse_unsigned(b"1 ").is_none());
    assert!(parse_unsigned(b"-1").is_none());
    assert!(parse_unsigned(b"1,5").is_none());
    assert!(parse_unsigned(b"1.5x").is_none());
    assert!(parse_unsigned(b"/1").is_none());
    assert!(parse_unsigned(b":1").is_none());
}

#[test]
fn signs() {
    assert!(parse_decimal("-1").unwrap().equals(&frac(-1, 1)));
    assert!(parse_decimal("-1").unwrap().is_negative());
    assert!(parse_decimal("+2.5").unwrap().equals(&frac(5, 2)));
    assert!(parse_decimal("2.5").unwrap().equals(&frac(5, 2)));
    assert!(parse_decimal("-19.99").unwrap().equals(&frac(-1999, 100)));
    assert!(parse_decimal_bytes(b"-0.0").unwrap().is_zero());
    assert!(!parse_decimal_bytes(b"-0.0").unwrap().is_negative());
    assert!(parse_decimal_bytes(b"-.5").unwrap().equals(&frac(-1, 2)));
    assert!(parse_decimal("-").is_none());
    assert!(parse_decimal("+").is_none());
    assert!(parse_decimal("--1").is_none());
    assert!(parse_decimal("+-1").is_none());
    assert!(parse_decimal("1-").is_none());
    assert!(parse_decimal("").is_none());
    assert!(parse_decimal("NaN").is_none());
    assert!(parse_decimal("inf").is_none());
}

#[test]
fn absent_cap_is_no_cap() {
    assert!(matches!(parse_cap(None), Ok(None)));
}

#[test]
fn negative_cap_is_no_cap() {
    assert!(matches!(parse_cap(Some("-1")), Ok(None)));
    assert!(matches!(parse_cap(Some("-0.5")), Ok(None)));
}

#[test]
fn cap_from_zero_up_is_a_cap() {
    match parse_cap(Some("5")) {
        Ok(Some(cap)) => assert!(cap.equals(&frac(5, 1))),
        _ => panic!("expected a cap"),
    }
    match parse_cap(Some("12.50")) {
        Ok(Some(cap)) => assert!(cap.equals(&frac(25, 2))),
        _ => panic!("expected a cap"),
    }
    match parse_cap(Some("0")) {
        Ok(Some(cap)) => assert!(cap.is_zero()),
        _ => panic!("expected a cap"),
    }
    match parse_cap(Some("-0")) {
        Ok(Some(cap)) => assert!(cap.is_zero()),
        _ => panic!("expected a cap"),
    }
}

#[test]
fn malformed_cap_is_a_fault() {
    assert!(matches!(parse_cap(Some("")), Err(Fault::MalformedCap)));
    assert!(matches!(parse_cap(Some("ten")), Err(Fault::MalformedCap)));
    assert!(matches!(parse_cap(Some("1.2.3")), Err(Fault::MalformedCap)));
    assert!(matches!(parse_cap(Some("-")), Err(Fault::MalformedCap)));
}

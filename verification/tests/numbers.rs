use expense_tracker::decimal::{decimal_string, parse_decimal};
use expense_tracker::refund::{refund_deposit, Settlement};

#[test]
fn numbers_are_written_in_decimal() {
    assert_eq!(decimal_string(0), "0");
    assert_eq!(decimal_string(7), "7");
    assert_eq!(decimal_string(10), "10");
    assert_eq!(decimal_string(1234567890), "1234567890");
    assert_eq!(decimal_string(u128::MAX), "340282366920938463463374607431768211455");
    for n in 0..2000u128 {
        assert_eq!(decimal_string(n), n.to_string());
    }
}

#[test]
fn decimal_texts_are_read() {
    assert_eq!(parse_decimal("0"), Some(0));
    assert_eq!(parse_decimal("9"), Some(9));
    assert_eq!(parse_decimal("10"), Some(10));
    assert_eq!(parse_decimal("4294967296"), Some(4294967296));
    assert_eq!(
        parse_decimal("340282366920938463463374607431768211455"),
        Some(u128::MAX)
    );
    for n in (0..100000u128).step_by(37) {
        assert_eq!(parse_decimal(&decimal_string(n)), Some(n));
    }
}

#[test]
fn other_texts_are_not_read() {
    for bad in [
        "", "00", "01", "007", "+5", "-5", " 5", "5 ", "5a", "a5", "1_000", "0x10", "1e3", "٣",
        "１", "340282366920938463463374607431768211456",
        "340282366920938463463374607431768211460",
        "3402823669209384634633746074317682114550",
        "999999999999999999999999999999999999999",
    ] {
        assert_eq!(parse_decimal(bad), None, "{bad:?}");
    }
}

#[test]
fn deposits_are_settled() {
    assert_eq!(refund_deposit(10, 3, 100), Settlement::Refund(70));
    assert_eq!(refund_deposit(10, 3, 32), Settlement::Refund(2));
    assert_eq!(refund_deposit(10, 3, 31), Settlement::Keep);
    assert_eq!(refund_deposit(10, 3, 30), Settlement::Keep);
    assert_eq!(refund_deposit(10, 3, 29), Settlement::Short);
    assert_eq!(refund_deposit(0, 3, 0), Settlement::Keep);
    assert_eq!(refund_deposit(0, u128::MAX, 5), Settlement::Refund(5));
    assert_eq!(refund_deposit(1, u128::MAX, u128::MAX), Settlement::Keep);
    assert_eq!(refund_deposit(2, u128::MAX, u128::MAX), Settlement::Short);
    assert_eq!(refund_deposit(u64::MAX, u128::MAX, u128::MAX), Settlement::Short);
    assert_eq!(
        refund_deposit(217, 10000000000000000000, 10000000000000000000000),
        Settlement::Refund(7830000000000000000000)
    );
}

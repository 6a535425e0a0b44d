use tenk::price::{total_cost, to_yocto, MIN_STORAGE_DEPOSIT};

const ONE: u128 = 1_000_000_000_000_000_000_000_000;

#[test]
fn to_yocto_whole_amount() {
    assert_eq!(to_yocto("1"), Some(ONE));
    assert_eq!(to_yocto("0"), Some(0));
    assert_eq!(to_yocto("12"), Some(12 * ONE));
}

#[test]
fn to_yocto_fractional_amount() {
    assert_eq!(to_yocto("0.5"), Some(ONE / 2));
    assert_eq!(to_yocto("1.05"), Some(ONE + 5 * ONE / 100));
    assert_eq!(to_yocto("0.00702"), Some(MIN_STORAGE_DEPOSIT));
    assert_eq!(to_yocto("0.000000000000000000000001"), Some(1));
}

#[test]
fn to_yocto_rejects_malformed_text() {
    assert_eq!(to_yocto(""), None);
    assert_eq!(to_yocto("abc"), None);
    assert_eq!(to_yocto("1."), None);
    assert_eq!(to_yocto(".5"), None);
    assert_eq!(to_yocto("1.2.3"), None);
    assert_eq!(to_yocto("-1"), None);
    assert_eq!(to_yocto("1 "), None);
}

#[test]
fn to_yocto_rejects_too_many_decimals() {
    assert_eq!(to_yocto("0.0000000000000000000000001"), None);
}

#[test]
fn to_yocto_rejects_overflow() {
    // u128::MAX is about 3.4e38, so 1e15 whole tokens no longer fit
    assert_eq!(to_yocto("340282366920938"), Some(340282366920938 * ONE));
    assert_eq!(to_yocto("1000000000000000"), None);
    assert_eq!(to_yocto("99999999999999999999999999999999999999999"), None);
}

#[test]
fn total_cost_multiplies_the_price() {
    assert_eq!(total_cost("1", 3), Some(3 * ONE));
    assert_eq!(total_cost("0.5", 0), Some(0));
    assert_eq!(total_cost("x", 1), None);
    assert_eq!(total_cost("340282366920938", 2), None);
}

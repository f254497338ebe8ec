use orderbook::book::Side;
use orderbook::message::{parse_change, token_from_response, Delta, TokenError};
use orderbook::number::{parse_digits, parse_price, parse_quantity};

fn chars(s: &str) -> Vec<char> {
    s.chars().collect()
}

fn price(s: &str) -> Option<u64> {
    let c = chars(s);
    parse_price(&c, 0, c.len())
}

fn quantity(s: &str) -> Option<i64> {
    let c = chars(s);
    parse_quantity(&c, 0, c.len())
}

#[test]
fn prices_in_ticks() {
    assert_eq!(price("49990.5"), Some(4_999_050_000_000));
    assert_eq!(price("100"), Some(10_000_000_000));
    assert_eq!(price("100.0"), Some(10_000_000_000));
    assert_eq!(price("0.00000001"), Some(1));
    assert_eq!(price("0"), Some(0));
    assert_eq!(price("184467440737.09551615"), Some(u64::MAX));
}

#[test]
fn malformed_prices() {
    assert_eq!(price(""), None);
    assert_eq!(price("."), None);
    assert_eq!(price("+"), None);
    assert_eq!(price("1.2.3"), None);
    assert_eq!(price("-1.0"), None);
    assert_eq!(price("e5"), None);
    assert_eq!(price("1e"), None);
    assert_eq!(price("1e+"), None);
    assert_eq!(price("1x"), None);
    assert_eq!(price("inf"), None);
    assert_eq!(price("NaN"), None);
    assert_eq!(price("184467440737.09551616"), None);
}

#[test]
fn other_real_number_forms() {
    assert_eq!(price(".5"), Some(50_000_000));
    assert_eq!(price("1."), Some(100_000_000));
    assert_eq!(price("+5"), Some(500_000_000));
    assert_eq!(price("1e3"), Some(100_000_000_000));
    assert_eq!(price("2.5E-1"), Some(25_000_000));
    assert_eq!(price("10e-9"), Some(1));
    assert_eq!(price("1e+11"), Some(10_000_000_000_000_000_000));
    assert_eq!(price("1.123456780"), Some(112_345_678));
    assert_eq!(price("0e99999999999999999999999999999999999999999"), Some(0));
}

#[test]
fn prices_finer_than_a_tick_or_too_large() {
    assert_eq!(price("1.123456789"), None);
    assert_eq!(price("1e-9"), None);
    assert_eq!(price("1e-99999999999999999999999999999999999999999"), None);
    assert_eq!(price("1e12"), None);
    assert_eq!(price("1e99999999999999999999999999999999999999999"), None);
}

#[test]
fn quantities() {
    assert_eq!(quantity("10"), Some(10));
    assert_eq!(quantity("-5"), Some(-5));
    assert_eq!(quantity("+7"), Some(7));
    assert_eq!(quantity("0"), Some(0));
    assert_eq!(quantity("9223372036854775807"), Some(i64::MAX));
    assert_eq!(quantity("-9223372036854775808"), Some(i64::MIN));
    assert_eq!(quantity("9223372036854775808"), None);
    assert_eq!(quantity("-9223372036854775809"), None);
    assert_eq!(quantity("99999999999999999999"), None);
    assert_eq!(quantity(""), None);
    assert_eq!(quantity("-"), None);
    assert_eq!(quantity("1.5"), None);
}

#[test]
fn digits_in_a_range() {
    let c = chars("x1234y");
    assert_eq!(parse_digits(&c, 1, 5), Some(1234));
    assert_eq!(parse_digits(&c, 0, 5), None);
    assert_eq!(parse_digits(&c, 2, 2), Some(0));
}

#[test]
fn change_fields() {
    assert_eq!(
        parse_change("3500.25,buy,12"),
        Some(Delta { price: 350_025_000_000, side: Side::Buy, quantity: 12 })
    );
    assert_eq!(
        parse_change("1,sell,0"),
        Some(Delta { price: 100_000_000, side: Side::Sell, quantity: 0 })
    );
    assert_eq!(parse_change("1,sell"), None);
    assert_eq!(parse_change("1,sell,0,0"), None);
    assert_eq!(parse_change("1,Sell,0"), None);
    assert_eq!(parse_change(""), None);
    assert_eq!(parse_change(",,"), None);
}

#[test]
fn token_from_credential_response() {
    assert_eq!(
        token_from_response("{\"code\":\"200000\",\"data\":{\"token\":\"abc123\",\"instanceServers\":[]}}"),
        Ok("abc123".to_string())
    );
    assert_eq!(token_from_response("{\"data\":{}}"), Err(TokenError::MissingToken));
    assert_eq!(token_from_response("{\"data\":{\"token\":5}}"), Err(TokenError::MissingToken));
    assert_eq!(token_from_response("{\"token\":\"abc\"}"), Err(TokenError::MissingToken));
    assert_eq!(token_from_response("<html>"), Err(TokenError::InvalidJson));
}

use omnipay_core::errors::UfiError;
use omnipay_core::types::StableCoin;
use omnipay_core::utils::{
    fmt_value, is_value_gte, parse_human_fmt_to_u256, parse_scaled_integer,
    sanitize_and_parse_amount, validate_and_parse_amount, validate_and_parse_amount_wo_sanitize,
};

fn scaled(num: &str, decimals: u8) -> String {
    parse_human_fmt_to_u256(num, decimals).unwrap().to_integer_string()
}

#[test]
fn parses_whole_and_fraction_exactly() {
    assert_eq!(scaled("10.123456", 6), "10123456");
    assert_eq!(scaled("7.25", 4), "72500");
    assert_eq!(scaled("10.1", 6), "10100000");
    assert_eq!(scaled("42", 6), "42000000");
    assert_eq!(scaled("1", 18), "1000000000000000000");
}

#[test]
fn conversion_formula_on_concrete_runs() {
    // whole 12, fraction "034" at precision 5: 12 * 10^5 + 34 * 10^2
    assert_eq!(scaled("12.034", 5), "1203400");
    // empty whole part counts as zero
    assert_eq!(scaled(".5", 6), "500000");
    // empty fractional part counts as zero
    assert_eq!(scaled("5.", 6), "5000000");
    // leading zeros carry no value
    assert_eq!(scaled("007.10", 2), "710");
}

#[test]
fn zero_exponent_artifact_normalizes_to_zero() {
    assert_eq!(scaled("0E-18", 18), "0");
    assert_eq!(scaled("0.0", 18), "0");
    assert_eq!(scaled("0E-7", 6), "0");
}

#[test]
fn too_many_fractional_digits_is_rejected() {
    assert_eq!(
        parse_human_fmt_to_u256("10.1234567", 6).unwrap_err(),
        UfiError::DecimalTooPrecise
    );
    assert_eq!(parse_human_fmt_to_u256("1.5", 0).unwrap_err(), UfiError::DecimalTooPrecise);
}

#[test]
fn malformed_text_is_rejected() {
    assert_eq!(parse_human_fmt_to_u256("12a", 6).unwrap_err(), UfiError::MalformedInteger);
    assert_eq!(parse_human_fmt_to_u256("1.2.3", 6).unwrap_err(), UfiError::MalformedInteger);
    assert_eq!(parse_human_fmt_to_u256("-5", 6).unwrap_err(), UfiError::MalformedInteger);
    assert_eq!(parse_human_fmt_to_u256("+5", 6).unwrap_err(), UfiError::MalformedInteger);
    assert_eq!(parse_human_fmt_to_u256("1 000", 6).unwrap_err(), UfiError::MalformedInteger);
    assert_eq!(parse_human_fmt_to_u256("1,000.5", 6).unwrap_err(), UfiError::MalformedInteger);
    assert_eq!(parse_human_fmt_to_u256("1.2e3", 6).unwrap_err(), UfiError::MalformedInteger);
}

#[test]
fn precision_zero_accepts_whole_numbers_only() {
    assert_eq!(scaled("5", 0), "5");
    assert_eq!(scaled("5.", 0), "5");
    assert_eq!(parse_human_fmt_to_u256("5.1", 0).unwrap_err(), UfiError::DecimalTooPrecise);
}

#[test]
fn sanitize_rejects_zero_amounts() {
    assert_eq!(sanitize_and_parse_amount("0", StableCoin::USDT).unwrap_err(), UfiError::ZeroAmount);
    assert_eq!(
        sanitize_and_parse_amount("0.000000", StableCoin::USDT).unwrap_err(),
        UfiError::ZeroAmount
    );
    assert_eq!(
        sanitize_and_parse_amount("0E-18", StableCoin::DAI).unwrap_err(),
        UfiError::ZeroAmount
    );
    let ok = sanitize_and_parse_amount("0.5", StableCoin::USDT).unwrap();
    assert_eq!(ok.to_integer_string(), "500000");
}

#[test]
fn validation_accepts_amount_within_balance() {
    // 10.124 + 0.5 = 10.624 <= 50
    assert!(validate_and_parse_amount("10.124", StableCoin::USDT, "50.000000", "0.500000").is_ok());
}

#[test]
fn validation_rejects_insufficient_balance() {
    // 49.6 + 0.5 = 50.1 > 50
    assert_eq!(
        validate_and_parse_amount("49.6", StableCoin::USDT, "50.000000", "0.500000").unwrap_err(),
        UfiError::InsufficientBalance
    );
    // the exact boundary still passes
    assert!(validate_and_parse_amount("49.5", StableCoin::USDT, "50.000000", "0.500000").is_ok());
}

#[test]
fn validation_propagates_amount_errors_first() {
    assert_eq!(
        validate_and_parse_amount("0", StableCoin::USDT, "50.000000", "0.500000").unwrap_err(),
        UfiError::ZeroAmount
    );
    assert_eq!(
        validate_and_parse_amount("1.1234567", StableCoin::USDT, "50.000000", "0.5").unwrap_err(),
        UfiError::DecimalTooPrecise
    );
    assert_eq!(
        validate_and_parse_amount("1", StableCoin::USDT, "fifty", "0.5").unwrap_err(),
        UfiError::MalformedInteger
    );
}

#[test]
fn validation_without_sanitize_takes_scaled_integers() {
    // amount is already in scaled units here: 10.124 USDT
    assert!(
        validate_and_parse_amount_wo_sanitize("10124000", StableCoin::USDT, "50.0", "0.5").is_ok()
    );
    // zero is deliberately allowed on this path
    assert!(validate_and_parse_amount_wo_sanitize("0", StableCoin::USDT, "50.0", "0.5").is_ok());
    // a human-formatted amount is malformed on this path
    assert_eq!(
        validate_and_parse_amount_wo_sanitize("10.124", StableCoin::USDT, "50.0", "0.5")
            .unwrap_err(),
        UfiError::MalformedInteger
    );
    assert_eq!(
        validate_and_parse_amount_wo_sanitize("50000000", StableCoin::USDT, "50.0", "0.5")
            .unwrap_err(),
        UfiError::InsufficientBalance
    );
}

#[test]
fn threshold_comparison_is_exact() {
    assert_eq!(is_value_gte("10123456", "10.123456", 6).unwrap(), true);
    assert_eq!(is_value_gte("10123455", "10.123456", 6).unwrap(), false);
    assert_eq!(is_value_gte("10123457", "10.123456", 6).unwrap(), true);
    assert_eq!(is_value_gte("", "1", 6).unwrap_err(), UfiError::MalformedInteger);
    assert_eq!(is_value_gte("5", "1..", 6).unwrap_err(), UfiError::MalformedInteger);
}

#[test]
fn parse_scaled_integer_requires_digits() {
    assert_eq!(parse_scaled_integer("10123456").unwrap().to_integer_string(), "10123456");
    assert_eq!(parse_scaled_integer("000").unwrap().to_integer_string(), "0");
    assert_eq!(parse_scaled_integer("").unwrap_err(), UfiError::MalformedInteger);
    assert_eq!(parse_scaled_integer("12.5").unwrap_err(), UfiError::MalformedInteger);
}

#[test]
fn formatting_gives_minimal_canonical_form() {
    assert_eq!(fmt_value("10100000", StableCoin::USDT).unwrap(), "10.1");
    assert_eq!(fmt_value("10123456", StableCoin::USDT).unwrap(), "10.123456");
    assert_eq!(fmt_value("5", StableCoin::USDT).unwrap(), "0.000005");
    assert_eq!(fmt_value("1000000", StableCoin::USDT).unwrap(), "1");
    assert_eq!(fmt_value("0", StableCoin::USDT).unwrap(), "0");
    assert_eq!(fmt_value("1000000000000000000", StableCoin::DAI).unwrap(), "1");
    assert_eq!(fmt_value("ten", StableCoin::USDT).unwrap_err(), UfiError::MalformedInteger);
}

#[test]
fn format_round_trips_by_value_not_by_text() {
    // "10.100000" and "10.1" render the same value
    let v1 = scaled("10.100000", 6);
    let formatted = fmt_value(&v1, StableCoin::USDT).unwrap();
    assert_eq!(formatted, "10.1");
    // re-parsing the rendered form recovers the exact value
    assert_eq!(scaled(&formatted, 6), v1);

    let v2 = scaled("0.000001", 6);
    let f2 = fmt_value(&v2, StableCoin::USDT).unwrap();
    assert_eq!(scaled(&f2, 6), v2);
}

#[test]
fn equal_values_format_identically() {
    // different spellings of one value share one canonical rendering
    let a = scaled("10.100000", 6);
    let b = scaled("010.1", 6);
    assert_eq!(a, b);
    assert_eq!(
        fmt_value(&a, StableCoin::USDT).unwrap(),
        fmt_value(&b, StableCoin::USDT).unwrap()
    );
}

#[test]
fn amounts_beyond_machine_words_stay_exact() {
    // 40 digits: far beyond any 128-bit integer
    let big = "1234567890123456789012345678901234567890";
    assert_eq!(parse_scaled_integer(big).unwrap().to_integer_string(), big);
    let s = scaled("1234567890123456789012345678901234567890.000001", 6);
    assert_eq!(s, "1234567890123456789012345678901234567890000001");
    assert_eq!(is_value_gte(&s, "1234567890123456789012345678901234567890.000001", 6).unwrap(), true);
}

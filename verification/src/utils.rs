//! The fixed-point converter and the amount validator.
//!
//! Human decimal strings are converted to scaled integer amounts at a
//! coin's precision without floating point, validated against business
//! rules, and compared against fetched balances using exact integer
//! arithmetic only.
use vstd::prelude::*;
use vstd::string::StrSliceExecFns;
use crate::errors::UfiError;
use crate::find::{find_char_from, spec_find};
use crate::scaled::{
    all_digit_chars, canonical_decimal_chars, decimal_value_chars, digits_val, pow10, ScaledAmount,
};
use crate::types::StableCoin;

verus! {

/// The artifact shape `0E-…` that an upstream storage layer emits for a
/// zero amount of a high-precision coin. It denotes zero and nothing else.
pub open spec fn is_zero_exponent_artifact(s: Seq<char>) -> bool {
    s.len() >= 3 && s[0] == '0' && s[1] == 'E' && s[2] == '-'
}

/// What parsing a human decimal string at precision `p` yields: the scaled
/// value `whole * 10^p + frac * 10^(p - |frac|)`, or the first error found.
/// The zero-exponent artifact is normalized to zero; a fractional part
/// longer than `p` is rejected before anything else; any non-digit in
/// either part is malformed. An empty whole or fractional part counts as
/// zero.
pub open spec fn spec_parse_decimal(s: Seq<char>, p: nat) -> Result<nat, UfiError> {
    if is_zero_exponent_artifact(s) {
        Ok(0)
    } else {
        match spec_find(s, '.') {
            None => if all_digit_chars(s) {
                Ok(digits_val(s) * pow10(p))
            } else {
                Err(UfiError::MalformedInteger)
            },
            Some(i) => {
                let whole = s.take(i);
                let frac = s.skip(i + 1);
                if frac.len() > p {
                    Err(UfiError::DecimalTooPrecise)
                } else if all_digit_chars(whole) && all_digit_chars(frac) {
                    Ok(digits_val(whole) * pow10(p) + digits_val(frac) * pow10(
                        (p - frac.len()) as nat,
                    ))
                } else {
                    Err(UfiError::MalformedInteger)
                }
            },
        }
    }
}

/// What parsing a plain scaled-integer string yields: its value, or
/// malformed when it is empty or holds any non-digit.
pub open spec fn spec_parse_integer(s: Seq<char>) -> Result<nat, UfiError> {
    if s.len() > 0 && all_digit_chars(s) {
        Ok(digits_val(s))
    } else {
        Err(UfiError::MalformedInteger)
    }
}

/// Parse a human-entered decimal amount into the coin's scaled integer
/// representation, exactly: `whole * 10^p + frac * 10^(p - |frac|)`.
pub fn parse_human_fmt_to_u256(num: &str, coin_decimals: u8) -> (r: Result<ScaledAmount, UfiError>)
    ensures
        match r {
            Ok(a) => spec_parse_decimal(num@, coin_decimals as nat) == Ok::<nat, UfiError>(a@),
            Err(e) => spec_parse_decimal(num@, coin_decimals as nat) == Err::<nat, UfiError>(e),
        },
{
    let n = num.unicode_len();
    if n >= 3 {
        if num.get_char(0) == '0' && num.get_char(1) == 'E' && num.get_char(2) == '-' {
            return Ok(ScaledAmount::zero());
        }
    }
    let dot = find_char_from(num, '.', 0);
    proof {
        assert(num@.skip(0) =~= num@);
    }
    if dot == n {
        proof {
            assert(num@.subrange(0, n as int) =~= num@);
        }
        match ScaledAmount::parse_digit_run(num, 0, n) {
            Some(w) => Ok(w.times_pow10(coin_decimals as usize)),
            None => Err(UfiError::MalformedInteger),
        }
    } else {
        let ghost whole = num@.take(dot as int);
        let ghost frac = num@.skip(dot as int + 1);
        proof {
            assert(whole =~= num@.subrange(0, dot as int));
            assert(frac =~= num@.subrange(dot as int + 1, n as int));
        }
        let frac_len = n - (dot + 1);
        if frac_len > coin_decimals as usize {
            return Err(UfiError::DecimalTooPrecise);
        }
        let w = match ScaledAmount::parse_digit_run(num, 0, dot) {
            Some(w) => w,
            None => {
                return Err(UfiError::MalformedInteger);
            },
        };
        let f = match ScaledAmount::parse_digit_run(num, dot + 1, n) {
            Some(f) => f,
            None => {
                return Err(UfiError::MalformedInteger);
            },
        };
        let sw = w.times_pow10(coin_decimals as usize);
        let sf = f.times_pow10(coin_decimals as usize - frac_len);
        Ok(sw.plus(&sf))
    }
}

/// What sanitizing an amount yields: its parse, except that an exact zero
/// is rejected as meaningless user intent.
pub open spec fn spec_sanitize_amount(s: Seq<char>, p: nat) -> Result<nat, UfiError> {
    match spec_parse_decimal(s, p) {
        Ok(v) => if v == 0 {
            Err(UfiError::ZeroAmount)
        } else {
            Ok(v)
        },
        Err(e) => Err(e),
    }
}

/// Parse a user-entered amount at the coin's precision and reject an exact
/// zero.
pub fn sanitize_and_parse_amount(amount: &str, coin: StableCoin) -> (r: Result<
    ScaledAmount,
    UfiError,
>)
    ensures
        match r {
            Ok(a) => spec_sanitize_amount(amount@, coin.spec_decimals() as nat) == Ok::<
                nat,
                UfiError,
            >(a@) && a@ > 0,
            Err(e) => spec_sanitize_amount(amount@, coin.spec_decimals() as nat) == Err::<
                nat,
                UfiError,
            >(e),
        },
{
    let amount_scaled = match parse_human_fmt_to_u256(amount, coin.decimals()) {
        Ok(a) => a,
        Err(e) => {
            return Err(e);
        },
    };
    if amount_scaled.is_zero() {
        return Err(UfiError::ZeroAmount);
    }
    Ok(amount_scaled)
}

/// The balance check shared by both validation entry points: at the coin's
/// precision, the already-parsed amount plus the estimated fees must not
/// exceed the balance.
pub open spec fn spec_check_against_balance(
    amount: Result<nat, UfiError>,
    p: nat,
    balance: Seq<char>,
    est_fees: Seq<char>,
) -> Result<(), UfiError> {
    match amount {
        Err(e) => Err(e),
        Ok(a) => match spec_parse_decimal(balance, p) {
            Err(e) => Err(e),
            Ok(b) => match spec_parse_decimal(est_fees, p) {
                Err(e) => Err(e),
                Ok(f) => if a + f <= b {
                    Ok(())
                } else {
                    Err(UfiError::InsufficientBalance)
                },
            },
        },
    }
}

/// Validate a user-entered amount against the fetched balance and fee
/// estimate: sanitize and parse it, then require
/// `amount + est_fees <= balance` in exact scaled-integer arithmetic.
pub fn validate_and_parse_amount(
    amount: &str,
    coin: StableCoin,
    balance: &str,
    est_fees: &str,
) -> (r: Result<(), UfiError>)
    ensures
        r == spec_check_against_balance(
            spec_sanitize_amount(amount@, coin.spec_decimals() as nat),
            coin.spec_decimals() as nat,
            balance@,
            est_fees@,
        ),
{
    let amount_scaled = match sanitize_and_parse_amount(amount, coin) {
        Ok(a) => a,
        Err(e) => {
            return Err(e);
        },
    };
    check_against_balance(amount_scaled, coin, balance, est_fees)
}

/// Validate an already-sanitized amount, given as a plain scaled-integer
/// string, against the fetched balance and fee estimate. The zero-amount
/// check is deliberately absent: this entry point serves flows where the
/// amount was validated earlier.
pub fn validate_and_parse_amount_wo_sanitize(
    amount: &str,
    coin: StableCoin,
    balance: &str,
    est_fees: &str,
) -> (r: Result<(), UfiError>)
    ensures
        r == spec_check_against_balance(
            spec_parse_integer(amount@),
            coin.spec_decimals() as nat,
            balance@,
            est_fees@,
        ),
{
    let amount_scaled = match parse_scaled_integer(amount) {
        Ok(a) => a,
        Err(e) => {
            return Err(e);
        },
    };
    check_against_balance(amount_scaled, coin, balance, est_fees)
}

/// The executable balance check behind both validation entry points.
fn check_against_balance(amount: ScaledAmount, coin: StableCoin, balance: &str, est_fees: &str) -> (r:
    Result<(), UfiError>)
    ensures
        r == spec_check_against_balance(
            Ok::<nat, UfiError>(amount@),
            coin.spec_decimals() as nat,
            balance@,
            est_fees@,
        ),
{
    let balance_scaled = match parse_human_fmt_to_u256(balance, coin.decimals()) {
        Ok(b) => b,
        Err(e) => {
            return Err(e);
        },
    };
    let est_fees_scaled = match parse_human_fmt_to_u256(est_fees, coin.decimals()) {
        Ok(f) => f,
        Err(e) => {
            return Err(e);
        },
    };
    let total = amount.plus(&est_fees_scaled);
    if total.le(&balance_scaled) {
        Ok(())
    } else {
        Err(UfiError::InsufficientBalance)
    }
}

/// Parse a plain scaled-integer string: one or more decimal digits.
pub fn parse_scaled_integer(s: &str) -> (r: Result<ScaledAmount, UfiError>)
    ensures
        match r {
            Ok(a) => spec_parse_integer(s@) == Ok::<nat, UfiError>(a@),
            Err(e) => spec_parse_integer(s@) == Err::<nat, UfiError>(e),
        },
{
    let n = s.unicode_len();
    if n == 0 {
        return Err(UfiError::MalformedInteger);
    }
    proof {
        assert(s@.subrange(0, n as int) =~= s@);
    }
    match ScaledAmount::parse_digit_run(s, 0, n) {
        Some(a) => Ok(a),
        None => Err(UfiError::MalformedInteger),
    }
}

/// Whether a scaled-integer value reaches a human-entered threshold at the
/// coin's precision: `value >= threshold`, exactly.
pub fn is_value_gte(num_in_u256_str: &str, amount: &str, coin_decimals: u8) -> (r: Result<
    bool,
    UfiError,
>)
    ensures
        match r {
            Ok(b) => spec_parse_integer(num_in_u256_str@) matches Ok(v) && spec_parse_decimal(
                amount@,
                coin_decimals as nat,
            ) matches Ok(a) && b == (v >= a),
            Err(e) => match spec_parse_integer(num_in_u256_str@) {
                Err(e2) => e == e2,
                Ok(_) => spec_parse_decimal(amount@, coin_decimals as nat) == Err::<nat, UfiError>(
                    e,
                ),
            },
        },
{
    let value = match parse_scaled_integer(num_in_u256_str) {
        Ok(v) => v,
        Err(e) => {
            return Err(e);
        },
    };
    let threshold = match parse_human_fmt_to_u256(amount, coin_decimals) {
        Ok(a) => a,
        Err(e) => {
            return Err(e);
        },
    };
    Ok(threshold.le(&value))
}

/// Render a scaled-integer string as the coin's canonical decimal form.
pub fn fmt_value(num_in_u256_str: &str, coin: StableCoin) -> (r: Result<String, UfiError>)
    ensures
        match r {
            Ok(out) => spec_parse_integer(num_in_u256_str@) matches Ok(v) && decimal_value_chars(
                out@,
                coin.spec_decimals() as nat,
            ) == Some(v) && canonical_decimal_chars(out@),
            Err(e) => spec_parse_integer(num_in_u256_str@) == Err::<nat, UfiError>(e),
        },
{
    let value = match parse_scaled_integer(num_in_u256_str) {
        Ok(v) => v,
        Err(e) => {
            return Err(e);
        },
    };
    Ok(value.to_decimal_string(coin.decimals()))
}

} // verus!

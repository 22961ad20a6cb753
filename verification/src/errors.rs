//! The failure taxonomy of the library, by component.
//!
//! Every error is returned to the immediate caller as a typed value; none is
//! retried or logged internally.
use vstd::prelude::*;

verus! {

/// Errors of the fixed-point converter and the amount validator.
#[derive(Debug, Clone, Copy, PartialEq, Eq, Structural)]
pub enum UfiError {
    /// A digit run (whole part, fractional part, or a plain integer string)
    /// holds a character that is not an ASCII digit, or a required digit run
    /// is empty.
    MalformedInteger,
    /// The fractional part of an entered amount has more digits than the
    /// coin's precision allows.
    DecimalTooPrecise,
    /// The entered amount parses to exactly zero, which is never a
    /// meaningful payment.
    ZeroAmount,
    /// A checked addition of scaled amounts could not represent its result.
    /// Scaled amounts carry arbitrary-width values, so no operation of this
    /// library produces it; it stays in the vocabulary for callers that
    /// match on the full taxonomy.
    ArithmeticOverflow,
    /// The amount plus the estimated fees exceeds the fetched balance.
    InsufficientBalance,
}

impl UfiError {
    /// Short human-readable description, for the presentation layer.
    pub fn message(&self) -> &'static str {
        match self {
            UfiError::MalformedInteger => "Please enter a valid amount.",
            UfiError::DecimalTooPrecise => "Too many decimal places. Please enter a valid amount.",
            UfiError::ZeroAmount => "Amount can't be zero. Please enter a valid amount to proceed.",
            UfiError::ArithmeticOverflow => "Calculation error: failed to add amount and estimated fees.",
            UfiError::InsufficientBalance => "Insufficient balance. Please deposit enough amount to proceed.",
        }
    }
}

/// Errors of the path-template resolver. All three indicate a programming
/// or integration defect, never bad end-user input.
#[derive(Debug, Clone, Copy, PartialEq, Eq, Structural)]
pub enum OmniPayError {
    /// A `{` in the template has no matching `}` before the end.
    UnclosedPlaceholder,
    /// The template has more placeholders than parameters were supplied.
    TooFewParameters,
    /// Parameters remain unconsumed after every placeholder was filled.
    TooManyParameters,
}

impl OmniPayError {
    /// Short human-readable description, for the presentation layer.
    pub fn message(&self) -> &'static str {
        match self {
            OmniPayError::UnclosedPlaceholder => "Unclosed placeholder found in template.",
            OmniPayError::TooFewParameters => "Not enough params provided to fill all placeholders.",
            OmniPayError::TooManyParameters => "Extra params provided to fill all placeholders.",
        }
    }
}

} // verus!

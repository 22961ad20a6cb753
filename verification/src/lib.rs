//! Client-side decision layer for a stablecoin payment service.
//!
//! Three independent components:
//! - a fixed-point converter between human decimal strings and scaled
//!   integer amounts at a coin's precision,
//! - an amount validator that checks a payment against a fetched balance
//!   and fee estimate using only integer arithmetic,
//! - a path-template resolver that substitutes ordered parameters into
//!   `{placeholder}` markers of static API path templates.
use vstd::prelude::*;

pub mod api;
pub mod errors;
pub mod find;
pub mod laws;
pub mod scaled;
pub mod types;
pub mod utils;

verus! {

/// Envelope in which the API server wraps every successful response body.
pub struct ApiResponse<T> {
    pub status: String,
    pub data: T,
}

} // verus!

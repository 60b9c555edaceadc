//! Service-level error values, the caller context, and the clock.
use vstd::prelude::*;

use std::time::{SystemTime, UNIX_EPOCH};

verus! {

/// A service failure: an HTTP-like code and an opaque message.
/// Validation failures carry 400, repository and internal failures 500.
#[derive(Debug)]
pub struct ServiceError {
    pub code: u32,
    pub message: String,
}

/// The authenticated caller of a service operation, passed explicitly to
/// every call.
#[derive(Debug, Clone, Copy, PartialEq, Eq, Structural)]
pub struct Context {
    pub uid: i32,
}

/// Relies on std `SystemTime::now` and `duration_since(UNIX_EPOCH)`:
/// whole seconds since the epoch, 0 for a clock before it. The value
/// depends on the clock, so nothing is assumed of it.
#[verifier::external_body]
pub fn get_current_timestamp() -> u64 {
    match SystemTime::now().duration_since(UNIX_EPOCH) {
        Ok(d) => d.as_secs(),
        Err(_) => 0,
    }
}

} // verus!

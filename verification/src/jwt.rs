//! Session token material: the claims shape and the issuer's settings.
//! Signing and verification are an external collaborator's work; the
//! cookie-to-token extraction is plain text logic and verified here.
use vstd::prelude::*;

verus! {

/// The claims carried by a session token.
#[derive(Debug, Clone)]
pub struct Claims {
    pub uid: i32,
    pub iat: usize,
    pub exp: usize,
}

/// The token issuer's settings.
pub struct Jwt {
    pub ttl_seconds: u64,
    pub secret: String,
}

impl Jwt {
    /// Builds an issuer.
    pub fn new(ttl_seconds: u64, secret: String) -> (r: Self)
        ensures
            r.ttl_seconds == ttl_seconds,
            r.secret@ == secret@,
    {
        Jwt { ttl_seconds, secret }
    }
}

} // verus!

//! The token-claims record and the part of token issuance that is
//! plain computation. Signing, verification and the clock stay with
//! the surrounding token layer.

use vstd::prelude::*;

use crate::ids::{oid_digits, ObjectId};

verus! {

/// How long an issued token lives, as the offset carried in its
/// expiry claim.
pub const TOKEN_LIFETIME_MS: i64 = 24 * 60 * 60 * 1000;

/// A token's claims: issuer, subject (the user identifier's canonical
/// string), and expiry.
#[derive(Debug)]
pub struct MyClaims {
    pub iss: String,
    pub sub: String,
    pub exp: i64,
}

/// Builds the claims issued for a user at the given time. The caller
/// supplies the clock reading and does the signing.
pub fn claims_for(user_id: &ObjectId, now: i64) -> (r: MyClaims)
    requires
        now + TOKEN_LIFETIME_MS <= i64::MAX,
    ensures
        r.iss@ == "yeoheng-server.com"@,
        r.sub@ == oid_digits(user_id.value),
        r.exp == now + TOKEN_LIFETIME_MS,
{
    MyClaims {
        iss: String::from_str("yeoheng-server.com"),
        sub: user_id.to_hex(),
        exp: now + TOKEN_LIFETIME_MS,
    }
}

} // verus!

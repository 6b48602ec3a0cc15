//! Decisions on HTTP authentication challenges.
use vstd::prelude::*;

verus! {

/// Whether a status code is an authentication challenge (401 or 407).
pub open spec fn spec_is_auth_challenge(status_code: u16) -> bool {
    status_code == 401 || status_code == 407
}

/// Check if a status code indicates an authentication challenge.
pub fn is_auth_challenge(status_code: u16) -> (r: bool)
    ensures
        r == spec_is_auth_challenge(status_code),
{
    status_code == 401 || status_code == 407
}

/// Determine if we should retry authentication: the status is a challenge
/// and no credentials were sent preemptively (`auth_no_challenge` is the
/// configuration's setting of that name).
pub fn should_retry_auth(status_code: u16, auth_no_challenge: bool) -> (r: bool)
    ensures
        r == (spec_is_auth_challenge(status_code) && !auth_no_challenge),
{
    is_auth_challenge(status_code) && !auth_no_challenge
}

} // verus!

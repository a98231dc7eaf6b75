//! Errors that ask for a new sign-in.

use vstd::prelude::*;

use crate::chars;
use crate::text;

verus! {

/// The message holds one of the known phrases of a failed sign-in, in letters of either case.
pub open spec fn asks_for_sign_in(message: Seq<char>) -> bool {
    let lower = text::ascii_lowercase(message);
    ||| text::contains(lower, "auth token not found"@)
    ||| text::contains(lower, "authentication_required"@)
    ||| text::contains(lower, "request needs authorization"@)
    ||| text::contains(lower, "421 misdirected request"@)
    ||| text::contains(lower, "401 unauthorized"@)
}

/// Tells whether an error message asks for a new sign-in.
pub fn is_auth_error_message(message: &str) -> (auth: bool)
    ensures
        auth == asks_for_sign_in(message@),
{
    let lower = chars::to_ascii_lowercase(message);
    chars::contains(lower.as_str(), "auth token not found") || chars::contains(
        lower.as_str(),
        "authentication_required",
    ) || chars::contains(lower.as_str(), "request needs authorization") || chars::contains(
        lower.as_str(),
        "421 misdirected request",
    ) || chars::contains(lower.as_str(), "401 unauthorized")
}

} // verus!

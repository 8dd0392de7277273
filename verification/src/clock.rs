//! The wall clock, as the text that the store stamps its writes with.

use vstd::prelude::*;

verus! {

/// Trusted: `chrono::Utc::now()` followed by `DateTime::to_rfc3339()`.
///
/// Reads the system clock and writes the instant as RFC 3339 text. The text
/// depends on when the call is made, so nothing is claimed of it. chrono
/// panics here only if the system clock stands before the Unix epoch.
#[verifier::external_body]
pub(crate) fn now_rfc3339() -> (now: String) {
    chrono::Utc::now().to_rfc3339()
}

} // verus!

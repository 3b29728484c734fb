//! Process clock access.

use vstd::prelude::*;

verus! {

/// Relies on `chrono::Utc::now`: seconds since the Unix epoch at the moment
/// of the call. The value depends on the wall clock, so nothing is promised
/// of it.
#[verifier::external_body]
pub(crate) fn now_seconds() -> i64 {
    chrono::Utc::now().timestamp()
}

} // verus!

//! The two points where the library touches the outside world: the system
//! clock and the random identifier generator. Everything downstream of
//! these values is verified for every value they could hand back.

use vstd::prelude::*;

verus! {

/// Relies on chrono::Utc::now, read as milliseconds since the Unix epoch.
/// Nothing can be promised of the clock's value.
#[verifier::external_body]
pub(crate) fn now_millis() -> i64 {
    chrono::Utc::now().timestamp_millis()
}

/// Relies on uuid::Uuid::new_v4, rendered through its `Display` form: a
/// freshly generated random identifier, always 36 characters long in the
/// hyphenated format. Nothing is promised of its value beyond the length.
#[verifier::external_body]
pub(crate) fn fresh_id() -> (r: String)
    ensures
        r@.len() == 36,
{
    uuid::Uuid::new_v4().to_string()
}

} // verus!

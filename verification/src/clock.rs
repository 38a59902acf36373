//! Fresh identifiers and timestamps.
//!
//! Record ids are random version-4 UUIDs and timestamps are the
//! current UTC time; both come from outside crates, so the store's
//! exact contracts are stated on the `_at` operations, which take the
//! generated values as arguments.

use vstd::prelude::*;

verus! {

/// Relies on `uuid::Uuid::new_v4` and the `Display` form of `Uuid`:
/// a random version-4 UUID rendered in the hyphenated lowercase form,
/// which is exactly 36 characters long.  The value itself is random
/// and nothing more is assumed of it.
#[verifier::external_body]
pub(crate) fn fresh_id() -> (r: String)
    ensures
        r@.len() == 36,
{
    uuid::Uuid::new_v4().to_string()
}

/// Relies on `chrono::Utc::now` and `DateTime::to_rfc3339`: the
/// current UTC time rendered in RFC 3339 form.  Nothing is assumed of
/// the value: the wall clock may move in either direction between
/// calls.
#[verifier::external_body]
pub(crate) fn now_rfc3339() -> (r: String) {
    chrono::Utc::now().to_rfc3339()
}

} // verus!

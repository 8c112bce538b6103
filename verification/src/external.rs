//! The library's two windows onto the outside world: fresh unique
//! identifiers and the wall clock.  Everything else the library computes
//! itself from plain values.

use vstd::prelude::*;

verus! {

/// Clock readings stay far inside the 64-bit range; chrono's `DateTime`
/// is bounded to years ±262143, whose Unix timestamps are well below 2^50.
pub open spec fn valid_timestamp(t: i64) -> bool {
    -1125899906842624 <= t <= 1125899906842624
}

/// Relies on chrono's `Utc::now` and `DateTime::timestamp`: the current
/// wall time in whole seconds since the Unix epoch.  Nothing is assumed of
/// its value beyond chrono's documented ±262143-year range.
#[verifier::external_body]
pub fn now_timestamp() -> (r: i64)
    ensures
        valid_timestamp(r),
{
    chrono::Utc::now().timestamp()
}

/// A character of a hyphenated UUID: a lowercase hex digit or a hyphen.
pub open spec fn is_uuid_char(c: char) -> bool {
    (48 <= c as int <= 57) || (97 <= c as int <= 102) || c as int == 45
}

/// Relies on uuid's `Uuid::new_v4` and its `Display` impl: a fresh random
/// identifier in hyphenated form, 36 characters of lowercase hex digits
/// and hyphens.  The value itself is random; nothing more is assumed.
#[verifier::external_body]
pub fn new_unique_id() -> (r: String)
    ensures
        r@.len() == 36,
        forall|i: int| 0 <= i < r@.len() ==> is_uuid_char(#[trigger] r@[i]),
{
    uuid::Uuid::new_v4().to_string()
}

} // verus!

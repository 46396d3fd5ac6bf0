//! The wall clock behind the score encoding and the registry version.
//!
//! A clock reading is usable for encoding only while it lies strictly
//! between zero and the base timestamp; every caller tests the reading
//! before building on it, since nothing can be promised of a clock.

use vstd::prelude::*;
use crate::codec::BASE_TIMESTAMP;

verus! {

/// Relies on `chrono::Utc::now().timestamp()`: the wall clock in
/// seconds. Nothing is promised of its value.
#[verifier::external_body]
pub fn now_unix_seconds() -> (t: i64) {
    chrono::Utc::now().timestamp()
}

/// Relies on `chrono::Utc::now().timestamp_millis()`: the wall clock in
/// milliseconds. Nothing is promised of its value.
#[verifier::external_body]
pub fn now_unix_millis() -> (t: i64) {
    chrono::Utc::now().timestamp_millis()
}

/// Whether a clock reading can drive the score encoding: positive and
/// strictly below the base timestamp.
pub fn clock_usable_for_encoding(t: i64) -> (b: bool)
    ensures
        b == (1 <= t && t < BASE_TIMESTAMP),
{
    1 <= t && t < (BASE_TIMESTAMP as i64)
}

} // verus!

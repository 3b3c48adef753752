//! The wall clock, behind a trusted boundary: timestamps are plain
//! strings to every verified function, which take them as arguments.

use vstd::prelude::*;

verus! {

/// Relies on chrono's `Utc::now` and its formatter: the current UTC
/// time, printed with millisecond precision and a trailing `Z`, e.g.
/// `2024-01-02T03:04:05.123Z`. Nothing is assumed of the value: every
/// verified function takes timestamps as plain string arguments.
#[verifier::external_body]
pub fn now_timestamp() -> String {
    chrono::Utc::now().format("%Y-%m-%dT%H:%M:%S%.3fZ").to_string()
}

} // verus!

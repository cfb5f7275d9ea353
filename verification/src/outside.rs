//! What the library's records carry from `chrono` (as plain values) and `serde_json`.

use vstd::prelude::*;

verus! {

/// An instant in UTC: whole seconds since 1970-01-01T00:00:00Z and the nanoseconds within
/// that second (chrono counts a leap second as nanoseconds past 999_999_999).
#[derive(Debug, Clone, Copy, PartialEq, Eq, Structural)]
pub struct UtcTime {
    pub seconds: i64,
    pub nanos: u32,
}

impl UtcTime {
    /// The start of 1970 (UTC), which is also chrono's default instant.
    pub fn unix_epoch() -> (t: UtcTime)
        ensures
            t == (UtcTime { seconds: 0, nanos: 0 }),
    {
        UtcTime { seconds: 0, nanos: 0 }
    }
}

/// `serde_json::Value`, any JSON value. The library carries it without looking inside.
#[verifier::external_type_specification]
#[verifier::external_body]
pub struct ExValue(serde_json::Value);

/// `Default::default` for `serde_json::Value`, which serde_json's source gives as
/// `Value::Null`. The value is opaque here, so nothing is stated of it.
#[verifier::external_body]
pub(crate) fn json_null() -> serde_json::Value {
    <serde_json::Value as Default>::default()
}

/// `Clone::clone` for `serde_json::Value` (derived in serde_json's source): an equal value.
pub assume_specification[ <serde_json::Value as Clone>::clone ](v: &serde_json::Value) -> (r:
    serde_json::Value)
    ensures
        r == *v,
;

} // verus!

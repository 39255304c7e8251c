//! The wall clock and unique identifiers: the values that depend on when and
//! where the library runs.
use vstd::prelude::*;

verus! {

/// The current time in milliseconds since the Unix epoch (`chrono::Utc::now`).
/// Nothing is stated of the value: it depends on the moment of the call.
#[verifier::external_body]
pub(crate) fn now_millis() -> i64 {
    chrono::Utc::now().timestamp_millis()
}

/// A fresh time-ordered UUID (`uuid::Uuid::now_v7`), as its 128-bit value.
/// Nothing is stated of the value: it depends on the clock and on chance.
#[verifier::external_body]
pub(crate) fn new_event_id() -> u128 {
    uuid::Uuid::now_v7().as_u128()
}

/// What `chrono` prints (`Display`) for the UTC instant `millis` milliseconds
/// after the Unix epoch, such as `2024-01-01 00:00:00 UTC`; `None` where the
/// instant lies outside the range that `DateTime<Utc>` represents.
pub uninterp spec fn utc_display(millis: i64) -> Option<Seq<char>>;

/// The same instant as `chrono`'s `Debug` prints it, such as
/// `2024-01-01T00:00:00Z`; `None` outside the representable range.
pub uninterp spec fn utc_debug(millis: i64) -> Option<Seq<char>>;

/// `DateTime::<Utc>::from_timestamp_millis`, then its `Display` text. The
/// text itself is only named: it is a function of the instant alone.
#[verifier::external_body]
pub(crate) fn utc_display_text(millis: i64) -> (r: Option<String>)
    ensures
        match r {
            Some(t) => utc_display(millis) == Some(t@),
            None => utc_display(millis) is None,
        },
{
    chrono::DateTime::from_timestamp_millis(millis).map(|d| d.to_string())
}

/// `DateTime::<Utc>::from_timestamp_millis`, then its `Debug` text.
#[verifier::external_body]
pub(crate) fn utc_debug_text(millis: i64) -> (r: Option<String>)
    ensures
        match r {
            Some(t) => utc_debug(millis) == Some(t@),
            None => utc_debug(millis) is None,
        },
{
    chrono::DateTime::from_timestamp_millis(millis).map(|d| format!("{:?}", d))
}

} // verus!

//! The wall clock. What it reads differs from call to call, so the
//! functions that use it are stated for every reading; of a stamp only its
//! shape is known.

use crate::text::no_line_break;
use vstd::prelude::*;

verus! {

/// Calls `chrono::Local::now`, `DateTime::format` with `%Y-%m-%d %H:%M:%S`
/// and `to_string`. Trusted: the text holds no line break, as the format
/// writes digits, hyphens, colons and one space. chrono stops the program if
/// the system clock stands before 1970.
#[verifier::external_body]
pub(crate) fn local_date_time() -> (stamp: String)
    ensures
        no_line_break(stamp@),
{
    chrono::Local::now().format("%Y-%m-%d %H:%M:%S").to_string()
}

/// Calls `chrono::Local::now`, `DateTime::format` with `%H:%M:%S` and
/// `to_string`. Trusted: the text holds no line break, as the format writes
/// digits and colons.
#[verifier::external_body]
pub(crate) fn local_time_of_day() -> (stamp: String)
    ensures
        no_line_break(stamp@),
{
    chrono::Local::now().format("%H:%M:%S").to_string()
}

/// Calls `chrono::Utc::now` and `DateTime::timestamp_millis`: the
/// milliseconds since 1970-01-01T00:00:00Z. Trusted: the call returns;
/// nothing is claimed of the number.
#[verifier::external_body]
pub(crate) fn utc_now_millis() -> i64 {
    chrono::Utc::now().timestamp_millis()
}

} // verus!

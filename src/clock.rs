//! Calendar text, from the chrono crate.

use vstd::prelude::*;

verus! {

/// The UTC calendar day of a Unix time as chrono writes it with `%b%d`:
/// the month's three-letter name and the two-digit day, as in `Jan05`.
pub uninterp spec fn month_day_text(secs: int) -> Seq<char>;

/// Relies on chrono's `DateTime::<Utc>::from_timestamp` and its `%b%d`
/// format: `None` where chrono cannot represent the time, else the day's text.
#[verifier::external_body]
pub(crate) fn month_day_of(secs: i64) -> (r: Option<String>)
    ensures
        r matches Some(t) ==> t@ == month_day_text(secs as int),
{
    match chrono::DateTime::<chrono::Utc>::from_timestamp(secs, 0) {
        Some(d) => Some(d.format("%b%d").to_string()),
        None => None,
    }
}

} // verus!
